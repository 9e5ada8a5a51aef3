//! Peripheral register values the firmware writes while bringing up the
//! board (STM32F4: RCC clock enables, GPIO pin modes and alternate functions,
//! USART3 at 115200 baud, SysTick at 1 kHz, Ethernet MAC).
//!
//! Register reads and writes happen outside this library; these functions
//! compute the value to write back from the value read.
use vstd::prelude::*;

verus! {

/// RCC AHB1ENR: GPIOB clock enable.
pub const RCC_AHB1ENR_GPIOBEN: u32 = 1 << 1;

/// RCC AHB1ENR: GPIOD clock enable.
pub const RCC_AHB1ENR_GPIODEN: u32 = 1 << 3;

/// RCC APB1ENR: USART3 clock enable.
pub const RCC_APB1ENR_USART3EN: u32 = 1 << 18;

/// RCC AHB1ENR: Ethernet MAC, MAC TX and MAC RX clock enables.
pub const RCC_AHB1ENR_ETHEN: u32 = (1 << 25) | (1 << 26) | (1 << 27);

/// RCC AHB1RSTR: Ethernet MAC reset.
pub const RCC_AHB1RSTR_ETHMACRST: u32 = 1 << 25;

/// USART3 BRR for 115200 baud from the 16 MHz APB1 clock (16_000_000 / 115200, rounded).
pub const USART3_BRR_115200: u32 = 139;

/// USART CR1: USART enable, transmitter enable, receiver enable.
pub const USART_CR1_UE_TE_RE: u32 = (1 << 13) | (1 << 3) | (1 << 2);

/// USART SR: transmit data register empty.
pub const USART_SR_TXE: u32 = 1 << 7;

/// SysTick reload value for a 1 ms period at 16 MHz (16 000 ticks, minus one).
pub const SYSTICK_RELOAD_1MS: u32 = 16_000 - 1;

/// SysTick CSR: counter enable, interrupt enable, processor clock.
pub const SYSTICK_CSR_ENABLE_TICKINT_CLKSOURCE: u32 = (1 << 0) | (1 << 1) | (1 << 2);

/// Ethernet MAC address 02:00:00:00:00:01, high register: the last two
/// address bytes, fifth in bits 0..8 and sixth in bits 8..16.
pub const ETH_MACA0HR_VALUE: u32 = 0x0000_0100;

/// Ethernet MAC address 02:00:00:00:00:01, low register: the first four
/// address bytes, first in bits 0..8 up to fourth in bits 24..32.
pub const ETH_MACA0LR_VALUE: u32 = 0x0000_0002;

/// GPIO MODER field value: general purpose output.
pub const MODE_OUTPUT: u32 = 0b01;

/// GPIO MODER field value: alternate function.
pub const MODE_ALTERNATE: u32 = 0b10;

/// Alternate function number of USART3 on PD8/PD9.
pub const AF7_USART3: u32 = 7;

/// The two-bit mode field of `pin` in a MODER value.
pub open spec fn mode_field(moder: u32, pin: u32) -> u32 {
    (moder >> (2 * pin)) & 3
}

/// The four-bit alternate-function field `k` in an AFRH value (pin `8 + k`).
pub open spec fn af_field(afrh: u32, k: u32) -> u32 {
    (afrh >> (4 * k)) & 0xF
}

/// Puts `pin` in output mode (`gpio_init`, `led_init`): its mode field becomes
/// 0b01 and every other pin keeps its mode.
pub fn gpio_mode_output(moder: u32, pin: u32) -> (r: u32)
    requires
        pin < 16,
    ensures
        r == (moder & !(3u32 << (2 * pin))) | (1u32 << (2 * pin)),
        mode_field(r, pin) == MODE_OUTPUT,
        forall|q: u32| q < 16 && q != pin ==> #[trigger] mode_field(r, q) == mode_field(moder, q),
{
    let r = (moder & !(0b11u32 << (pin * 2))) | (0b01u32 << (pin * 2));
    assert(((r >> (2 * pin)) & 3) == 1) by (bit_vector)
        requires
            pin < 16,
            r == (moder & !(3u32 << (pin * 2))) | (1u32 << (pin * 2)),
    ;
    assert forall|q: u32| q < 16 && q != pin implies #[trigger] mode_field(r, q) == mode_field(
        moder,
        q,
    ) by {
        assert(((r >> (2 * q)) & 3) == ((moder >> (2 * q)) & 3)) by (bit_vector)
            requires
                pin < 16,
                q < 16,
                q != pin,
                r == (moder & !(3u32 << (pin * 2))) | (1u32 << (pin * 2)),
        ;
    }
    r
}

/// Puts PD8 and PD9 in alternate-function mode (UART bring-up): both mode
/// fields become 0b10 and every other pin keeps its mode.
pub fn uart_pins_alternate(moder: u32) -> (r: u32)
    ensures
        r == (moder & !(0b1111u32 << 16)) | (0b1010u32 << 16),
        mode_field(r, 8) == MODE_ALTERNATE,
        mode_field(r, 9) == MODE_ALTERNATE,
        forall|q: u32| q < 16 && q != 8 && q != 9 ==> #[trigger] mode_field(r, q) == mode_field(moder, q),
{
    let r = (moder & !(0b1111u32 << (8 * 2))) | (0b1010u32 << (8 * 2));
    assert(((r >> 16) & 3) == 2 && ((r >> 18) & 3) == 2) by (bit_vector)
        requires
            r == (moder & !(0b1111u32 << 16)) | (0b1010u32 << 16),
    ;
    assert forall|q: u32| q < 16 && q != 8 && q != 9 implies #[trigger] mode_field(r, q)
        == mode_field(moder, q) by {
        assert(((r >> (2 * q)) & 3) == ((moder >> (2 * q)) & 3)) by (bit_vector)
            requires
                q < 16,
                q != 8,
                q != 9,
                r == (moder & !(0b1111u32 << 16)) | (0b1010u32 << 16),
        ;
    }
    r
}

/// Selects AF7 (USART3) for PD8 and PD9 (UART bring-up): alternate-function
/// fields 0 and 1 of AFRH become 7 and the other six keep their values.
pub fn uart_pins_af7(afrh: u32) -> (r: u32)
    ensures
        r == (afrh & !0xFFu32) | 0x77u32,
        af_field(r, 0) == AF7_USART3,
        af_field(r, 1) == AF7_USART3,
        forall|k: u32| 2 <= k < 8 ==> #[trigger] af_field(r, k) == af_field(afrh, k),
{
    let r = (afrh & !(0xFFu32 << 0)) | (0x77u32 << 0);
    assert(((r >> 0) & 0xF) == 7 && ((r >> 4) & 0xF) == 7 && r == (afrh & !0xFFu32) | 0x77u32)
        by (bit_vector)
        requires
            r == (afrh & !(0xFFu32 << 0)) | (0x77u32 << 0),
    ;
    assert forall|k: u32| 2 <= k < 8 implies #[trigger] af_field(r, k) == af_field(afrh, k) by {
        assert(((r >> (4 * k)) & 0xF) == ((afrh >> (4 * k)) & 0xF)) by (bit_vector)
            requires
                2 <= k < 8,
                r == (afrh & !0xFFu32) | 0x77u32,
        ;
    }
    r
}

} // verus!
