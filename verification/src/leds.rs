//! LED control on GPIO port B.
//!
//! The board has three user LEDs: blue on PB0, green on PB7, red on PB14.
//! Switching an LED means updating its bit in the port's output data
//! register (ODR); the firmware reads the register, computes the new value
//! and writes it back. Besides the register it keeps its own record of which
//! LEDs are lit, one bit per LED (bit 0 blue, bit 1 green, bit 2 red), which
//! is what status queries answer from.
use vstd::prelude::*;

verus! {

/// Pin of the blue LED.
pub const LED_BLUE: u32 = 0;

/// Pin of the green LED.
pub const LED_GREEN: u32 = 7;

/// Pin of the red LED.
pub const LED_RED: u32 = 14;

/// The ODR value with `pin` driven high.
pub open spec fn spec_pin_on(odr: u32, pin: u32) -> u32 {
    odr | (1u32 << pin)
}

/// The ODR value with `pin` driven low.
pub open spec fn spec_pin_off(odr: u32, pin: u32) -> u32 {
    odr & !(1u32 << pin)
}

/// The ODR value with `pin` inverted.
pub open spec fn spec_pin_toggle(odr: u32, pin: u32) -> u32 {
    odr ^ (1u32 << pin)
}

/// The ODR value after driving `pin` to `state`.
pub open spec fn spec_pin_set(odr: u32, pin: u32, state: bool) -> u32 {
    if state {
        spec_pin_on(odr, pin)
    } else {
        spec_pin_off(odr, pin)
    }
}

/// Pin `pin` is driven high in `odr`.
pub open spec fn pin_is_high(odr: u32, pin: u32) -> bool {
    (odr >> pin) & 1 == 1
}

/// The bit that records an LED's state: blue 0, green 1, red 2; `None` for a
/// pin without an LED.
pub open spec fn led_bit(pin: u32) -> Option<u32> {
    if pin == LED_BLUE {
        Some(0u32)
    } else if pin == LED_GREEN {
        Some(1u32)
    } else if pin == LED_RED {
        Some(2u32)
    } else {
        None
    }
}

/// Drives `pin` high (`led_on`).
pub fn pin_on(odr: u32, pin: u32) -> (r: u32)
    requires
        pin < 32,
    ensures
        r == spec_pin_on(odr, pin),
{
    odr | (1u32 << pin)
}

/// Drives `pin` low (`led_off`).
pub fn pin_off(odr: u32, pin: u32) -> (r: u32)
    requires
        pin < 32,
    ensures
        r == spec_pin_off(odr, pin),
{
    odr & !(1u32 << pin)
}

/// Inverts `pin` (`led_toggle`).
pub fn pin_toggle(odr: u32, pin: u32) -> (r: u32)
    requires
        pin < 32,
    ensures
        r == spec_pin_toggle(odr, pin),
{
    odr ^ (1u32 << pin)
}

/// The recorded LED states.
pub struct LedState {
    bits: u32,
}

impl View for LedState {
    type V = u32;

    /// The recorded bits: bit 0 blue, bit 1 green, bit 2 red.
    closed spec fn view(&self) -> u32 {
        self.bits
    }
}

/// The LED on `pin` is recorded as lit in `bits`.
pub open spec fn spec_led_get(bits: u32, pin: u32) -> bool {
    match led_bit(pin) {
        Some(b) => (bits >> b) & 1 == 1,
        None => false,
    }
}

/// The record after the LED on `pin` is switched to `state`.
pub open spec fn spec_led_set(bits: u32, pin: u32, state: bool) -> u32 {
    match led_bit(pin) {
        Some(b) => if state {
            bits | (1u32 << b)
        } else {
            bits & !(1u32 << b)
        },
        None => bits,
    }
}

/// The record after the LED on `pin` is inverted.
pub open spec fn spec_led_toggle(bits: u32, pin: u32) -> u32 {
    match led_bit(pin) {
        Some(b) => bits ^ (1u32 << b),
        None => bits,
    }
}

/// The ODR drives every LED pin the way the record says.
pub open spec fn odr_matches(odr: u32, bits: u32) -> bool {
    &&& pin_is_high(odr, LED_BLUE) == spec_led_get(bits, LED_BLUE)
    &&& pin_is_high(odr, LED_GREEN) == spec_led_get(bits, LED_GREEN)
    &&& pin_is_high(odr, LED_RED) == spec_led_get(bits, LED_RED)
}

impl LedState {
    /// All LEDs recorded off.
    pub fn new() -> (s: Self)
        ensures
            s@ == 0,
    {
        LedState { bits: 0 }
    }
}

/// Switches the LED on `pin` to `state`: returns the new ODR value and updates
/// the record (a pin without an LED changes only the ODR).
pub fn led_set(leds: &mut LedState, odr: u32, pin: u32, state: bool) -> (r: u32)
    requires
        pin < 32,
    ensures
        r == spec_pin_set(odr, pin, state),
        final(leds)@ == spec_led_set(old(leds)@, pin, state),
{
    let r = if state {
        pin_on(odr, pin)
    } else {
        pin_off(odr, pin)
    };
    let bit: u32 = if pin == LED_BLUE {
        0
    } else if pin == LED_GREEN {
        1
    } else if pin == LED_RED {
        2
    } else {
        return r;
    };
    if state {
        leds.bits = leds.bits | (1u32 << bit);
    } else {
        leds.bits = leds.bits & !(1u32 << bit);
    }
    r
}

/// Inverts the LED on `pin`: returns the new ODR value and updates the record
/// (a pin without an LED changes only the ODR).
pub fn led_toggle(leds: &mut LedState, odr: u32, pin: u32) -> (r: u32)
    requires
        pin < 32,
    ensures
        r == spec_pin_toggle(odr, pin),
        final(leds)@ == spec_led_toggle(old(leds)@, pin),
{
    let r = pin_toggle(odr, pin);
    let bit: u32 = if pin == LED_BLUE {
        0
    } else if pin == LED_GREEN {
        1
    } else if pin == LED_RED {
        2
    } else {
        return r;
    };
    leds.bits = leds.bits ^ (1u32 << bit);
    r
}

/// Whether the LED on `pin` is recorded as lit; false for a pin without an LED.
pub fn led_get(leds: &LedState, pin: u32) -> (b: bool)
    ensures
        b == spec_led_get(leds@, pin),
{
    let bit: u32 = if pin == LED_BLUE {
        0
    } else if pin == LED_GREEN {
        1
    } else if pin == LED_RED {
        2
    } else {
        return false;
    };
    let bits = leds.bits;
    assert(((bits & (1u32 << bit)) != 0) == ((bits >> bit) & 1 == 1)) by (bit_vector)
        requires
            bit < 3,
    ;
    (bits & (1u32 << bit)) != 0
}

/// The ODR value after inverting the blue, green and red LED pins.
pub open spec fn spec_pins_toggle_all(odr: u32) -> u32 {
    spec_pin_toggle(spec_pin_toggle(spec_pin_toggle(odr, LED_BLUE), LED_GREEN), LED_RED)
}

/// The record after inverting the blue, green and red LEDs.
pub open spec fn spec_led_toggle_all(bits: u32) -> u32 {
    spec_led_toggle(spec_led_toggle(spec_led_toggle(bits, LED_BLUE), LED_GREEN), LED_RED)
}

/// Inverts all three LEDs: blue, then green, then red.
pub fn led_toggle_all(leds: &mut LedState, odr: u32) -> (r: u32)
    ensures
        r == spec_pins_toggle_all(odr),
        final(leds)@ == spec_led_toggle_all(old(leds)@),
{
    let odr = led_toggle(leds, odr, LED_BLUE);
    let odr = led_toggle(leds, odr, LED_GREEN);
    led_toggle(leds, odr, LED_RED)
}


/// After switching the LED on `pin` to `state`, it reads back as `state`, and
/// every other LED reads as before.
pub proof fn lemma_get_after_set(bits: u32, pin: u32, state: bool, other: u32)
    requires
        led_bit(pin) is Some,
        other != pin,
    ensures
        spec_led_get(spec_led_set(bits, pin, state), pin) == state,
        spec_led_get(spec_led_set(bits, pin, state), other) == spec_led_get(bits, other),
{
    let b = led_bit(pin).unwrap();
    assert(((bits | (1u32 << b)) >> b) & 1 == 1) by (bit_vector)
        requires
            b < 3,
    ;
    assert(((bits & !(1u32 << b)) >> b) & 1 == 0) by (bit_vector)
        requires
            b < 3,
    ;
    if let Some(c) = led_bit(other) {
        assert(((bits | (1u32 << b)) >> c) & 1 == (bits >> c) & 1) by (bit_vector)
            requires
                b < 3,
                c < 3,
                b != c,
        ;
        assert(((bits & !(1u32 << b)) >> c) & 1 == (bits >> c) & 1) by (bit_vector)
            requires
                b < 3,
                c < 3,
                b != c,
        ;
    }
}

/// Toggling an LED inverts its reading and leaves the others alone; toggling
/// the same pin twice restores both the ODR value and the record.
pub proof fn lemma_toggle(bits: u32, odr: u32, pin: u32, other: u32)
    requires
        led_bit(pin) is Some,
        other != pin,
        pin < 32,
    ensures
        spec_led_get(spec_led_toggle(bits, pin), pin) == !spec_led_get(bits, pin),
        spec_led_get(spec_led_toggle(bits, pin), other) == spec_led_get(bits, other),
        spec_led_toggle(spec_led_toggle(bits, pin), pin) == bits,
        spec_pin_toggle(spec_pin_toggle(odr, pin), pin) == odr,
{
    let b = led_bit(pin).unwrap();
    assert(((bits ^ (1u32 << b)) >> b) & 1 == 1 <==> (bits >> b) & 1 != 1) by (bit_vector)
        requires
            b < 3,
    ;
    assert((bits ^ (1u32 << b)) ^ (1u32 << b) == bits) by (bit_vector);
    assert((odr ^ (1u32 << pin)) ^ (1u32 << pin) == odr) by (bit_vector);
    if let Some(c) = led_bit(other) {
        assert(((bits ^ (1u32 << b)) >> c) & 1 == (bits >> c) & 1) by (bit_vector)
            requires
                b < 3,
                c < 3,
                b != c,
        ;
    }
}

/// Toggling all LEDs inverts each of the three readings.
pub proof fn lemma_toggle_all(bits: u32)
    ensures
        ({
            let t = spec_led_toggle_all(bits);
            &&& spec_led_get(t, LED_BLUE) == !spec_led_get(bits, LED_BLUE)
            &&& spec_led_get(t, LED_GREEN) == !spec_led_get(bits, LED_GREEN)
            &&& spec_led_get(t, LED_RED) == !spec_led_get(bits, LED_RED)
        }),
{
    let t1 = spec_led_toggle(bits, LED_BLUE);
    let t2 = spec_led_toggle(t1, LED_GREEN);
    lemma_toggle(bits, 0, LED_BLUE, LED_GREEN);
    lemma_toggle(bits, 0, LED_BLUE, LED_RED);
    lemma_toggle(t1, 0, LED_GREEN, LED_BLUE);
    lemma_toggle(t1, 0, LED_GREEN, LED_RED);
    lemma_toggle(t2, 0, LED_RED, LED_BLUE);
    lemma_toggle(t2, 0, LED_RED, LED_GREEN);
}

/// Bit `p` of `odr` after changing only pin `q != p` is unchanged.
proof fn lemma_other_pin_kept(odr: u32, q: u32, p: u32)
    requires
        q < 32,
        p < 32,
        p != q,
    ensures
        pin_is_high(spec_pin_on(odr, q), p) == pin_is_high(odr, p),
        pin_is_high(spec_pin_off(odr, q), p) == pin_is_high(odr, p),
        pin_is_high(spec_pin_toggle(odr, q), p) == pin_is_high(odr, p),
{
    assert(((odr | (1u32 << q)) >> p) & 1 == (odr >> p) & 1) by (bit_vector)
        requires
            q < 32,
            p < 32,
            p != q,
    ;
    assert(((odr & !(1u32 << q)) >> p) & 1 == (odr >> p) & 1) by (bit_vector)
        requires
            q < 32,
            p < 32,
            p != q,
    ;
    assert(((odr ^ (1u32 << q)) >> p) & 1 == (odr >> p) & 1) by (bit_vector)
        requires
            q < 32,
            p < 32,
            p != q,
    ;
}

/// Bit `p` of `odr` after setting, clearing or inverting it.
proof fn lemma_same_pin(odr: u32, p: u32)
    requires
        p < 32,
    ensures
        pin_is_high(spec_pin_on(odr, p), p),
        !pin_is_high(spec_pin_off(odr, p), p),
        pin_is_high(spec_pin_toggle(odr, p), p) == !pin_is_high(odr, p),
{
    assert(((odr | (1u32 << p)) >> p) & 1 == 1) by (bit_vector)
        requires
            p < 32,
    ;
    assert(((odr & !(1u32 << p)) >> p) & 1 == 0) by (bit_vector)
        requires
            p < 32,
    ;
    assert(((odr ^ (1u32 << p)) >> p) & 1 == 1 <==> (odr >> p) & 1 != 1) by (bit_vector)
        requires
            p < 32,
    ;
}

/// The ODR and the record stay in step: if the ODR drives the LED pins the way
/// the record says before `led_set` or `led_toggle` (on any pin), it does so
/// afterwards too.
pub proof fn lemma_odr_tracks_record(odr: u32, bits: u32, pin: u32, state: bool)
    requires
        pin < 32,
        odr_matches(odr, bits),
    ensures
        odr_matches(spec_pin_set(odr, pin, state), spec_led_set(bits, pin, state)),
        odr_matches(spec_pin_toggle(odr, pin), spec_led_toggle(bits, pin)),
{
    let leds = seq![LED_BLUE, LED_GREEN, LED_RED];
    assert forall|k: int| 0 <= k < 3 implies {
        let p = #[trigger] leds[k];
        &&& pin_is_high(spec_pin_set(odr, pin, state), p) == spec_led_get(
            spec_led_set(bits, pin, state),
            p,
        )
        &&& pin_is_high(spec_pin_toggle(odr, pin), p) == spec_led_get(spec_led_toggle(bits, pin), p)
    } by {
        let p = leds[k];
        if p == pin {
            lemma_same_pin(odr, p);
            if let Some(_) = led_bit(pin) {
                lemma_get_after_set(bits, pin, state, if pin == 0 { 7 } else { 0 });
                lemma_toggle(bits, odr, pin, if pin == 0 { 7 } else { 0 });
            }
        } else {
            lemma_other_pin_kept(odr, pin, p);
            if let Some(_) = led_bit(pin) {
                lemma_get_after_set(bits, pin, state, p);
                lemma_toggle(bits, odr, pin, p);
            }
        }
    }
}
/// Toggling all LEDs inverts exactly the three LED pins of the output
/// register and keeps every other pin; if the register drove the LEDs the way
/// the record said, it still does after both are toggled.
pub proof fn lemma_pins_toggle_all(odr: u32, bits: u32, p: u32)
    requires
        p < 32,
    ensures
        pin_is_high(spec_pins_toggle_all(odr), p) == if p == LED_BLUE || p == LED_GREEN || p
            == LED_RED {
            !pin_is_high(odr, p)
        } else {
            pin_is_high(odr, p)
        },
        odr_matches(odr, bits) ==> odr_matches(spec_pins_toggle_all(odr), spec_led_toggle_all(bits)),
{
    let o1 = spec_pin_toggle(odr, LED_BLUE);
    let o2 = spec_pin_toggle(o1, LED_GREEN);
    assert forall|q: u32| q < 32 implies #[trigger] pin_is_high(spec_pins_toggle_all(odr), q) == if q
        == LED_BLUE || q == LED_GREEN || q == LED_RED {
        !pin_is_high(odr, q)
    } else {
        pin_is_high(odr, q)
    } by {
        if q == LED_BLUE {
            lemma_same_pin(odr, q);
            lemma_other_pin_kept(o1, LED_GREEN, q);
            lemma_other_pin_kept(o2, LED_RED, q);
        } else if q == LED_GREEN {
            lemma_other_pin_kept(odr, LED_BLUE, q);
            lemma_same_pin(o1, q);
            lemma_other_pin_kept(o2, LED_RED, q);
        } else if q == LED_RED {
            lemma_other_pin_kept(odr, LED_BLUE, q);
            lemma_other_pin_kept(o1, LED_GREEN, q);
            lemma_same_pin(o2, q);
        } else {
            lemma_other_pin_kept(odr, LED_BLUE, q);
            lemma_other_pin_kept(o1, LED_GREEN, q);
            lemma_other_pin_kept(o2, LED_RED, q);
        }
    }
    lemma_toggle_all(bits);
    assert(pin_is_high(spec_pins_toggle_all(odr), LED_BLUE) == !pin_is_high(odr, LED_BLUE));
    assert(pin_is_high(spec_pins_toggle_all(odr), LED_GREEN) == !pin_is_high(odr, LED_GREEN));
    assert(pin_is_high(spec_pins_toggle_all(odr), LED_RED) == !pin_is_high(odr, LED_RED));
}
/// Switching, clearing or inverting one pin of the output register changes
/// that pin's level as asked and leaves every other pin's level as it was.
pub proof fn lemma_pin_ops(odr: u32, pin: u32, q: u32)
    requires
        pin < 32,
        q < 32,
    ensures
        pin_is_high(spec_pin_on(odr, pin), q) == (q == pin || pin_is_high(odr, q)),
        pin_is_high(spec_pin_off(odr, pin), q) == (q != pin && pin_is_high(odr, q)),
        pin_is_high(spec_pin_toggle(odr, pin), q) == if q == pin {
            !pin_is_high(odr, q)
        } else {
            pin_is_high(odr, q)
        },
{
    if q == pin {
        lemma_same_pin(odr, pin);
    } else {
        lemma_other_pin_kept(odr, pin, q);
    }
}
} // verus!
