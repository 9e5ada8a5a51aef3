use bare_metal::leds::{
    led_get, led_set, led_toggle, led_toggle_all, pin_off, pin_on, pin_toggle, LedState, LED_BLUE,
    LED_GREEN, LED_RED,
};

#[test]
fn pin_operations() {
    assert_eq!(pin_on(0, 7), 0x80);
    assert_eq!(pin_on(0x80, 7), 0x80);
    assert_eq!(pin_off(0xFFFF_FFFF, 7), 0xFFFF_FF7F);
    assert_eq!(pin_off(0, 7), 0);
    assert_eq!(pin_toggle(0, 7), 0x80);
    assert_eq!(pin_toggle(0x80, 7), 0);
    assert_eq!(pin_on(0, 31), 0x8000_0000);
}

#[test]
fn set_then_get() {
    let mut leds = LedState::new();
    assert!(!led_get(&leds, LED_BLUE));
    let odr = led_set(&mut leds, 0, LED_RED, true);
    assert_eq!(odr, 1 << 14);
    assert!(led_get(&leds, LED_RED));
    assert!(!led_get(&leds, LED_BLUE));
    assert!(!led_get(&leds, LED_GREEN));
    let odr = led_set(&mut leds, odr, LED_RED, false);
    assert_eq!(odr, 0);
    assert!(!led_get(&leds, LED_RED));
}

#[test]
fn pins_without_led() {
    let mut leds = LedState::new();
    let odr = led_set(&mut leds, 0, 3, true);
    assert_eq!(odr, 1 << 3);
    assert!(!led_get(&leds, 3));
    assert!(!led_get(&leds, LED_BLUE) && !led_get(&leds, LED_GREEN) && !led_get(&leds, LED_RED));
    let odr = led_toggle(&mut leds, odr, 3);
    assert_eq!(odr, 0);
    assert!(!led_get(&leds, 100));
}

#[test]
fn toggle_twice_restores() {
    let mut leds = LedState::new();
    let odr = led_set(&mut leds, 0x1234, LED_GREEN, true);
    let once = led_toggle(&mut leds, odr, LED_GREEN);
    assert!(!led_get(&leds, LED_GREEN));
    let twice = led_toggle(&mut leds, once, LED_GREEN);
    assert_eq!(twice, odr);
    assert!(led_get(&leds, LED_GREEN));
}

#[test]
fn toggle_all_flips_each() {
    let mut leds = LedState::new();
    let odr = led_set(&mut leds, 0, LED_BLUE, true);
    let odr = led_toggle_all(&mut leds, odr);
    assert_eq!(odr, (1 << LED_GREEN) | (1 << LED_RED));
    assert!(!led_get(&leds, LED_BLUE));
    assert!(led_get(&leds, LED_GREEN));
    assert!(led_get(&leds, LED_RED));
    let odr = led_toggle_all(&mut leds, odr);
    assert_eq!(odr, 1 << LED_BLUE);
}

#[test]
fn register_follows_record() {
    let mut leds = LedState::new();
    let mut odr = 0u32;
    let steps: [(u32, Option<bool>); 6] = [
        (LED_BLUE, Some(true)),
        (LED_GREEN, None),
        (LED_RED, Some(true)),
        (LED_BLUE, None),
        (9, Some(true)),
        (LED_RED, Some(false)),
    ];
    for (pin, op) in steps.iter() {
        odr = match op {
            Some(state) => led_set(&mut leds, odr, *pin, *state),
            None => led_toggle(&mut leds, odr, *pin),
        };
        for led in [LED_BLUE, LED_GREEN, LED_RED].iter() {
            assert_eq!((odr >> led) & 1 == 1, led_get(&leds, *led));
        }
    }
}
