//! Behaviour of the e-paper display driver over simulated pins and bus.

use longan_drivers::{
    Color, DeepSleepMode, DisplayRamOption, Epd2in66bDisplay, SimBusy, SimDelay, SimPin, SimSpi,
    SourceOutputMode,
};

fn fresh_display(spi: &mut SimSpi) -> Epd2in66bDisplay<SimPin, SimBusy, SimPin, SimPin> {
    let mut delay = SimDelay::new();
    Epd2in66bDisplay::new(
        spi,
        SimPin::new(true),
        SimBusy::new(3),
        SimPin::new(false),
        SimPin::new(true),
        &mut delay,
    )
    .expect("the simulated bus never faults")
}

#[test]
fn bring_up_sends_software_reset() {
    let mut spi = SimSpi::new();
    let _epd = fresh_display(&mut spi);
    assert_eq!(spi.written_bytes().as_slice(), &[0x12]);
}

#[test]
fn clear_frame_fills_both_planes() {
    let mut spi = SimSpi::new();
    let mut epd = fresh_display(&mut spi);
    epd.clear_frame(&mut spi).expect("the simulated bus never faults");
    let bytes = spi.written_bytes().as_slice();
    assert_eq!(bytes.len(), 1 + 1 + 5624 + 1 + 5624);
    assert_eq!(bytes[0], 0x12);
    assert_eq!(bytes[1], 0x24);
    assert!(bytes[2..2 + 5624].iter().all(|b| *b == 0xFF));
    assert_eq!(bytes[2 + 5624], 0x26);
    assert!(bytes[3 + 5624..].iter().all(|b| *b == 0x00));
}

#[test]
fn activate_sends_master_activation() {
    let mut spi = SimSpi::new();
    let mut epd = fresh_display(&mut spi);
    epd.activate(&mut spi).expect("the simulated bus never faults");
    assert_eq!(spi.written_bytes().as_slice(), &[0x12, 0x20]);
}

#[test]
fn update_control_packs_ram_options() {
    let mut spi = SimSpi::new();
    let mut epd = fresh_display(&mut spi);
    epd.display_update_control_1(
        &mut spi,
        DisplayRamOption::Inverse,
        DisplayRamOption::Bypass,
        SourceOutputMode::S8ToS167,
    )
    .expect("the simulated bus never faults");
    assert_eq!(spi.written_bytes().as_slice(), &[0x12, 0x21, 0x84, 0x80]);
}

#[test]
fn update_control_normal_is_all_zero() {
    let mut spi = SimSpi::new();
    let mut epd = fresh_display(&mut spi);
    epd.display_update_control_1(
        &mut spi,
        DisplayRamOption::Normal,
        DisplayRamOption::Normal,
        SourceOutputMode::S0ToS175,
    )
    .expect("the simulated bus never faults");
    assert_eq!(spi.written_bytes().as_slice(), &[0x12, 0x21, 0x00, 0x00]);
}

#[test]
fn deep_sleep_sends_mode_byte() {
    let mut spi = SimSpi::new();
    let mut epd = fresh_display(&mut spi);
    epd.deep_sleep(&mut spi, DeepSleepMode::Mode2).expect("the simulated bus never faults");
    assert_eq!(spi.written_bytes().as_slice(), &[0x12, 0x10, 0x11]);
    let mut spi2 = SimSpi::new();
    let mut epd2 = fresh_display(&mut spi2);
    epd2.deep_sleep(&mut spi2, DeepSleepMode::Normal).expect("the simulated bus never faults");
    assert_eq!(spi2.written_bytes().as_slice(), &[0x12, 0x10, 0x00]);
}

#[test]
fn colors_are_distinct() {
    assert_ne!(Color::White, Color::Black);
    assert_ne!(Color::Black, Color::Red);
    assert_ne!(Color::White, Color::Red);
}
