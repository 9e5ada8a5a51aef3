//! The SysTick millisecond counter and the busy-wait delay built on it.
//!
//! The hardware interrupt fires once per millisecond and bumps a 32-bit
//! counter; `millis` reads it and `delay_ms` waits until enough ticks have
//! passed. The counter wraps around after 2^32 ms, and the delay measures
//! elapsed time with wrapping subtraction so that it keeps working across
//! the wrap.
use vstd::prelude::*;

verus! {

/// Number of distinct counter values (the counter is 32 bits wide).
pub open spec fn counter_modulus() -> int {
    0x1_0000_0000
}

/// The counter value after one more tick.
pub open spec fn next_tick(m: u32) -> u32 {
    ((m + 1) % counter_modulus()) as u32
}

/// The counter value after `k` more ticks.
pub open spec fn advance(m: u32, k: nat) -> u32
    decreases k,
{
    if k == 0 {
        m
    } else {
        next_tick(advance(m, (k - 1) as nat))
    }
}

/// Milliseconds elapsed from `start` to `now`, counted modulo the counter's range.
pub open spec fn elapsed(start: u32, now: u32) -> int {
    (now - start) % counter_modulus()
}

/// A delay of `ms` milliseconds that started at counter reading `start` is
/// still running when the counter reads `now`.
pub open spec fn delay_pending(start: u32, ms: u32, now: u32) -> bool {
    elapsed(start, now) < ms
}

/// The millisecond counter that the SysTick interrupt advances.
pub struct TickCounter {
    ms: u32,
}

impl View for TickCounter {
    type V = u32;

    closed spec fn view(&self) -> u32 {
        self.ms
    }
}

impl TickCounter {
    /// A counter at zero, as after reset.
    pub fn new() -> (c: Self)
        ensures
            c@ == 0,
    {
        TickCounter { ms: 0 }
    }

    /// A counter holding the given reading.
    pub fn from_millis(ms: u32) -> (c: Self)
        ensures
            c@ == ms,
    {
        TickCounter { ms }
    }

    /// The SysTick interrupt: one more millisecond has passed (wrapping at 2^32).
    pub fn tick(&mut self)
        ensures
            final(self)@ == next_tick(old(self)@),
    {
        self.ms = self.ms.wrapping_add(1);
    }

    /// The current millisecond reading.
    pub fn millis(&self) -> (m: u32)
        ensures
            m == self@,
    {
        self.ms
    }
}

/// A busy-wait delay that started at a given counter reading.
pub struct Delay {
    start: u32,
    ms: u32,
}

impl Delay {
    /// The counter reading at which the delay started.
    pub closed spec fn start(self) -> u32 {
        self.start
    }

    /// The requested length of the delay, in milliseconds.
    pub closed spec fn duration(self) -> u32 {
        self.ms
    }

    /// The loop condition of the busy-wait: true while fewer than the requested
    /// number of milliseconds have elapsed since the start (wrapping subtraction).
    pub fn is_pending(&self, now: &TickCounter) -> (b: bool)
        ensures
            b == delay_pending(self.start(), self.duration(), now@),
    {
        let now_ms = now.millis();
        let diff = now_ms.wrapping_sub(self.start);
        assert(diff == elapsed(self.start, now_ms));
        diff < self.ms
    }
}

/// Starts a delay of `ms` milliseconds at the counter's current reading.
/// The caller then waits while `is_pending` holds for fresh readings.
pub fn delay_ms(clock: &TickCounter, ms: u32) -> (d: Delay)
    ensures
        d.start() == clock@,
        d.duration() == ms,
{
    Delay { start: clock.millis(), ms }
}

/// After `k` ticks the counter reads `m + k` modulo 2^32.
pub proof fn lemma_advance(m: u32, k: nat)
    ensures
        advance(m, k) == (m + k) % counter_modulus(),
    decreases k,
{
    if k > 0 {
        lemma_advance(m, (k - 1) as nat);
        vstd::arithmetic::div_mod::lemma_add_mod_noop(m + (k - 1), 1, counter_modulus());
    }
}

/// A delay of `ms` milliseconds that starts at counter reading `start` is still
/// pending after `k` ticks (for fewer than 2^32 ticks) exactly when `k < ms`:
/// the wrap of the counter does not end or stretch the delay.
pub proof fn lemma_delay_pending_iff_fewer_ticks(start: u32, ms: u32, k: nat)
    requires
        k < counter_modulus(),
    ensures
        elapsed(start, advance(start, k)) == k,
        delay_pending(start, ms, advance(start, k)) <==> (k < ms),
{
    lemma_advance(start, k);
    let m = counter_modulus();
    if start + k < m {
        vstd::arithmetic::div_mod::lemma_fundamental_div_mod_converse(start + k, m, 0, start + k);
        vstd::arithmetic::div_mod::lemma_fundamental_div_mod_converse(k as int, m, 0, k as int);
    } else {
        vstd::arithmetic::div_mod::lemma_fundamental_div_mod_converse(start + k, m, 1, start + k - m);
        vstd::arithmetic::div_mod::lemma_fundamental_div_mod_converse(k - m, m, -1, k as int);
    }
}

} // verus!
