use bare_metal::regs::{
    gpio_mode_output, uart_pins_af7, uart_pins_alternate, ETH_MACA0HR_VALUE, ETH_MACA0LR_VALUE,
    RCC_AHB1ENR_ETHEN, SYSTICK_CSR_ENABLE_TICKINT_CLKSOURCE, SYSTICK_RELOAD_1MS, USART3_BRR_115200,
    USART_CR1_UE_TE_RE,
};

#[test]
fn output_mode_for_pin() {
    assert_eq!(gpio_mode_output(0, 7), 0x4000);
    assert_eq!(gpio_mode_output(0xFFFF_FFFF, 7), 0xFFFF_7FFF);
    assert_eq!(gpio_mode_output(0, 0), 0x1);
    assert_eq!(gpio_mode_output(0, 14), 0x1000_0000);
    assert_eq!(gpio_mode_output(0xC000_0000, 15), 0x4000_0000);
}

#[test]
fn uart_pin_setup() {
    assert_eq!(uart_pins_alternate(0), 0x000A_0000);
    assert_eq!(uart_pins_alternate(0xFFFF_FFFF), 0xFFFA_FFFF);
    assert_eq!(uart_pins_af7(0), 0x77);
    assert_eq!(uart_pins_af7(0xFFFF_FFFF), 0xFFFF_FF77);
}

#[test]
fn uart_pins_leave_output_mode_and_af8() {
    // PD8/PD9 previously in output mode (01) and on AF8 end up in AF7.
    assert_eq!(uart_pins_alternate(0x0005_0000), 0x000A_0000);
    assert_eq!(uart_pins_af7(0x88), 0x77);
    assert_eq!(uart_pins_alternate(0x000F_0000), 0x000A_0000);
    assert_eq!(uart_pins_af7(0x1234_56FF), 0x1234_5677);
}

#[test]
fn mac_address_registers() {
    // 02:00:00:00:00:01: bytes 0..4 in the low register, 4..6 in the high one.
    let mac: [u8; 6] = [0x02, 0x00, 0x00, 0x00, 0x00, 0x01];
    let low = u32::from_le_bytes([mac[0], mac[1], mac[2], mac[3]]);
    let high = u32::from_le_bytes([mac[4], mac[5], 0, 0]);
    assert_eq!(ETH_MACA0LR_VALUE, low);
    assert_eq!(ETH_MACA0HR_VALUE & 0xFFFF, high);
    assert_eq!(ETH_MACA0LR_VALUE, 0x0000_0002);
    assert_eq!(ETH_MACA0HR_VALUE, 0x0000_0100);
}

#[test]
fn constants() {
    assert_eq!(USART3_BRR_115200, 139);
    assert_eq!(USART_CR1_UE_TE_RE, 0x200C);
    assert_eq!(SYSTICK_RELOAD_1MS, 15_999);
    assert_eq!(SYSTICK_CSR_ENABLE_TICKINT_CLKSOURCE, 0x7);
    assert_eq!(RCC_AHB1ENR_ETHEN, 0x0E00_0000);
}
