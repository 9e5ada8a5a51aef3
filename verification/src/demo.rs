//! The decisions of the demo main loops. The loops themselves (toggling the
//! LED register, waiting, printing over the serial port) run outside this
//! library; each iteration asks these functions what to do.
use vstd::prelude::*;

verus! {

/// What one iteration of the formatted-output demo prints.
pub struct PrintfStep {
    /// The counter shown as `Toggle #{:03}` and `Hex: 0x{:04X}`.
    pub counter: u32,
    /// Total LED toggles so far, including this iteration's.
    pub total_toggles: u32,
    /// Print `  -> Counter is divisible by 5!` (for positive multiples of 5).
    pub divisible_by_5: bool,
    /// Print `  => Reached 10 toggles!`.
    pub reached_10: bool,
    /// The counter for the next iteration.
    pub next_counter: u32,
    /// Print the summary block (`=== Summary after {next_counter} toggles ===`).
    pub summary: bool,
    /// The count shown in the summary as `  LED state changed {} times`: the
    /// toggles so far plus the LED's initial setting, one more than
    /// `total_toggles` (so 21 after the first 20 toggles).
    pub state_changes: u64,
}

/// One iteration of the formatted-output demo: the LED is toggled once, the
/// toggle line is printed for `counter`, the remarks for positive multiples
/// of 5 and for 10 follow, then the counter advances and every 20th iteration ends with
/// a summary that reports the toggles so far and the LED state changes
/// (toggles plus the initial setting).
pub fn printf_demo_step(counter: u32, total_toggles: u32) -> (r: PrintfStep)
    requires
        counter < u32::MAX,
        total_toggles < u32::MAX,
    ensures
        r.counter == counter,
        r.total_toggles == total_toggles + 1,
        r.divisible_by_5 == (counter > 0 && counter % 5 == 0),
        r.reached_10 == (counter == 10),
        r.next_counter == counter + 1,
        r.summary == ((counter + 1) % 20 == 0),
        r.state_changes == total_toggles + 2,
{
    let total = total_toggles + 1;
    let next = counter + 1;
    PrintfStep {
        counter,
        total_toggles: total,
        divisible_by_5: counter > 0 && counter % 5 == 0,
        reached_10: counter == 10,
        next_counter: next,
        summary: next % 20 == 0,
        state_changes: total as u64 + 1,
    }
}

/// What the web server demo does at the end of one second.
pub struct ServerTick {
    /// Seconds elapsed, including this one.
    pub seconds: u32,
    /// Toggle the green LED (and report `Auto-toggled green LED`).
    pub toggle_green: bool,
    /// Print the status line with the three LED states.
    pub report: bool,
}

/// One second of the web server demo: every 10 seconds the green LED is
/// toggled, and every 5 seconds the LED states are reported (after the toggle,
/// so the report shows the new state).
pub fn server_tick(seconds: u32) -> (r: ServerTick)
    requires
        seconds < u32::MAX,
    ensures
        r.seconds == seconds + 1,
        r.toggle_green == ((seconds + 1) % 10 == 0),
        r.report == ((seconds + 1) % 5 == 0),
{
    let s = seconds + 1;
    ServerTick { seconds: s, toggle_green: s % 10 == 0, report: s % 5 == 0 }
}

/// Every auto-toggle of the green LED comes with a status report.
pub proof fn lemma_toggle_is_reported(seconds: u32)
    requires
        seconds % 10 == 0,
    ensures
        seconds % 5 == 0,
{
}

} // verus!
