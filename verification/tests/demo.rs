use bare_metal::demo::{printf_demo_step, server_tick};

#[test]
fn printf_demo_first_iterations() {
    let s = printf_demo_step(0, 0);
    assert_eq!(s.counter, 0);
    assert_eq!(s.total_toggles, 1);
    assert!(!s.divisible_by_5);
    assert!(!s.reached_10);
    assert_eq!(s.next_counter, 1);
    assert!(!s.summary);

    let s = printf_demo_step(5, 5);
    assert!(s.divisible_by_5 && !s.reached_10 && !s.summary);
    assert_eq!(s.total_toggles, 6);

    let s = printf_demo_step(3, 3);
    assert!(!s.divisible_by_5 && !s.reached_10 && !s.summary);

    let s = printf_demo_step(10, 10);
    assert!(s.divisible_by_5 && s.reached_10);

    let s = printf_demo_step(19, 19);
    assert!(s.summary);
    assert_eq!(s.state_changes, 21);
    assert_eq!(s.next_counter, 20);
    assert_eq!(s.total_toggles, 20);
}

#[test]
fn printf_demo_first_summary_matches_expected_output() {
    let mut counter = 0;
    let mut total = 0;
    let mut summaries = Vec::new();
    for _ in 0..40 {
        let s = printf_demo_step(counter, total);
        counter = s.next_counter;
        total = s.total_toggles;
        if s.summary {
            summaries.push((s.next_counter, s.state_changes));
        }
    }
    assert_eq!(summaries, vec![(20, 21), (40, 41)]);
}

#[test]
fn printf_demo_counts_do_not_overflow_near_the_limit() {
    let s = printf_demo_step(0, u32::MAX - 1);
    assert_eq!(s.total_toggles, u32::MAX);
    assert_eq!(s.state_changes, u32::MAX as u64 + 1);
}

#[test]
fn server_demo_schedule() {
    let mut seconds = 0;
    let mut log = Vec::new();
    for _ in 0..20 {
        let t = server_tick(seconds);
        seconds = t.seconds;
        if t.toggle_green {
            log.push(format!("toggle@{}", seconds));
        }
        if t.report {
            log.push(format!("report@{}", seconds));
        }
    }
    assert_eq!(
        log,
        vec!["report@5", "toggle@10", "report@10", "report@15", "toggle@20", "report@20"]
    );
}
