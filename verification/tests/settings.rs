use rp_pio_serial::clock::{calc_char_delay_cycles, calc_clkdiv};
use rp_pio_serial::wire::decode;
use rp_pio_serial::{
    DataBits, InitError, Installation, MachineSetup, Parity, PinDirection, RpPioSerial,
    ServiceMode, ShiftDirection, Startup, StopBits, UartConfig,
};

const CLOCK: u32 = 125_000_000;

fn start(
    clock_hz: u32,
    config: UartConfig,
    done: Installation,
) -> Result<Startup<16, 16>, InitError> {
    RpPioSerial::<16, 16>::new(10, 9, clock_hz, config, done)
}

#[test]
fn default_settings() {
    let config = UartConfig::default();
    assert_eq!(config.baud, 115_200);
    assert_eq!(config.data_bits, DataBits::Eight);
    assert_eq!(config.parity, Parity::NoParity);
    assert_eq!(config.stop_bits, StopBits::One);
    assert!(!config.auto_echo);
    assert_eq!(config.service_mode, ServiceMode::Polling);
    assert_eq!(config.tx_pipeline_chars, 5);
    assert!(config.is_supported_by_current_backend());
}

#[test]
fn frame_lengths() {
    let mut config = UartConfig::default();
    assert_eq!(config.frame_bits(), 10);
    config.data_bits = DataBits::Five;
    assert_eq!(config.frame_bits(), 7);
    config.data_bits = DataBits::Six;
    config.parity = Parity::Even;
    assert_eq!(config.frame_bits(), 9);
    config.data_bits = DataBits::Seven;
    config.parity = Parity::Odd;
    assert_eq!(config.frame_bits(), 10);
    config.data_bits = DataBits::Eight;
    config.stop_bits = StopBits::Two;
    assert_eq!(config.frame_bits(), 12);
}

#[test]
fn data_bits_as_numbers() {
    assert_eq!(DataBits::Five.bits(), 5);
    assert_eq!(DataBits::Six.bits(), 6);
    assert_eq!(DataBits::Seven.bits(), 7);
    assert_eq!(DataBits::Eight.bits(), 8);
}

#[test]
fn divisors_of_equal_ratios_are_equal() {
    assert_eq!(calc_clkdiv(CLOCK, 115_200), calc_clkdiv(2 * CLOCK, 230_400));
    assert_eq!(calc_clkdiv(1, 33), calc_clkdiv(10, 330));
}

#[test]
fn character_times_grow() {
    let base = calc_char_delay_cycles(CLOCK, 10, 115_200);
    assert!(calc_char_delay_cycles(2 * CLOCK, 10, 115_200) > base);
    assert!(calc_char_delay_cycles(CLOCK, 12, 115_200) > base);
    assert!(calc_char_delay_cycles(CLOCK, 10, 9_600) > base);
}

#[test]
fn only_8n1_is_supported() {
    let good = UartConfig::default();
    assert!(!UartConfig { baud: 0, ..good }.is_supported_by_current_backend());
    assert!(!UartConfig { data_bits: DataBits::Seven, ..good }.is_supported_by_current_backend());
    assert!(!UartConfig { parity: Parity::Even, ..good }.is_supported_by_current_backend());
    assert!(!UartConfig { stop_bits: StopBits::Two, ..good }.is_supported_by_current_backend());
    assert!(UartConfig { auto_echo: true, baud: 1, ..good }.is_supported_by_current_backend());
}

#[test]
fn clock_divisors() {
    // 125 MHz / (8 * 115200) = 135.633...
    assert_eq!(calc_clkdiv(CLOCK, 115_200), Ok((135, 162)));
    assert_eq!(calc_clkdiv(CLOCK, 9_600), Ok((1627, 154)));
    assert_eq!(calc_clkdiv(8, 1), Ok((1, 0)));
    // Faster than one bit in eight cycles: no whole part is left.
    assert_eq!(calc_clkdiv(1_000_000, 1_000_000), Ok((0, 32)));
}

#[test]
fn clock_divisors_that_do_not_exist() {
    assert_eq!(calc_clkdiv(CLOCK, 0), Err(InitError::InvalidBaud));
    assert_eq!(calc_clkdiv(0, 9_600), Err(InitError::InvalidBaud));
    assert_eq!(calc_clkdiv(1, 33), Err(InitError::InvalidBaud));
    // 65536 is zero in sixteen bits.
    assert_eq!(calc_clkdiv(8 * 65_536, 1), Err(InitError::InvalidBaud));
}

#[test]
fn clock_divisor_keeps_sixteen_bits() {
    assert_eq!(calc_clkdiv(8 * 65_537, 1), Ok((1, 0)));
    assert_eq!(calc_clkdiv(8 * 65_535, 1), Ok((65_535, 0)));
}

#[test]
fn divisor_is_rounded_down() {
    let (whole, frac) = calc_clkdiv(CLOCK, 115_200).unwrap();
    let divisor = u64::from(whole) * 256 + u64::from(frac);
    assert!(divisor * 8 * 115_200 <= u64::from(CLOCK) * 256);
    assert!((divisor + 1) * 8 * 115_200 > u64::from(CLOCK) * 256);
}

#[test]
fn character_times() {
    assert_eq!(calc_char_delay_cycles(CLOCK, 10, 115_200), 10_850);
    assert_eq!(calc_char_delay_cycles(CLOCK, 0, 1_000), 125_000);
    assert_eq!(calc_char_delay_cycles(1_000, 10, 0), 10_000);
    assert_eq!(calc_char_delay_cycles(1, 1, 2), 1);
    assert_eq!(calc_char_delay_cycles(u32::MAX, 10, 1), u32::MAX);
}

#[test]
fn received_words_are_bit_reversed() {
    assert_eq!(decode(0x82), 0x41);
    assert_eq!(decode(0xFFFF_FF01), 0x80);
    assert_eq!(decode(0x0000_0100), 0);
}

#[test]
fn every_byte_crosses_the_line() {
    for byte in 0..=255u8 {
        // Shifted out to the right, shifted in to the left.
        let mut register = 0u32;
        for i in 0..8 {
            register = (register << 1) | ((u32::from(byte) >> i) & 1);
        }
        assert_eq!(decode(register), byte);
    }
}

#[test]
fn bring_up_asks_for_both_machines_in_turn() {
    let config = UartConfig::default();
    let tx = match start(CLOCK, config, Installation::NotStarted) {
        Ok(Startup::InstallTx(setup)) => setup,
        _ => panic!("expected the transmit machine"),
    };
    assert_eq!(
        tx,
        MachineSetup {
            pin: 10,
            pin_direction: PinDirection::Output,
            divisor_int: 135,
            divisor_frac: 162,
            shift: ShiftDirection::Right,
            auto_transfer: false,
        }
    );
    let rx = match start(CLOCK, config, Installation::TxRunning) {
        Ok(Startup::InstallRx(setup)) => setup,
        _ => panic!("expected the receive machine"),
    };
    assert_eq!(
        rx,
        MachineSetup {
            pin: 9,
            pin_direction: PinDirection::Input,
            divisor_int: 135,
            divisor_frac: 162,
            shift: ShiftDirection::Left,
            auto_transfer: false,
        }
    );
    assert!(matches!(start(CLOCK, config, Installation::BothRunning), Ok(Startup::Ready(_))));
}

#[test]
fn bring_up_fails_with_the_installation() {
    let config = UartConfig::default();
    assert_eq!(
        start(CLOCK, config, Installation::TxFailed).err(),
        Some(InitError::InstallTxProgram)
    );
    assert_eq!(
        start(CLOCK, config, Installation::RxFailed).err(),
        Some(InitError::InstallRxProgram)
    );
}

#[test]
fn bring_up_judges_the_settings_first() {
    let good = UartConfig::default();
    let stages = [
        Installation::NotStarted,
        Installation::TxFailed,
        Installation::TxRunning,
        Installation::RxFailed,
        Installation::BothRunning,
    ];
    for done in stages {
        assert_eq!(start(0, good, done).err(), Some(InitError::InvalidBaud));
        let silent = UartConfig { baud: 0, parity: Parity::Odd, ..good };
        assert_eq!(start(CLOCK, silent, done).err(), Some(InitError::InvalidBaud));
        let seven = UartConfig { data_bits: DataBits::Seven, ..good };
        assert_eq!(start(CLOCK, seven, done).err(), Some(InitError::UnsupportedConfig));
        let fast = UartConfig { baud: 33, ..good };
        assert_eq!(start(1, fast, done).err(), Some(InitError::InvalidBaud));
    }
}

#[test]
fn a_fresh_uart() {
    let config = UartConfig { baud: 9_600, service_mode: ServiceMode::InterruptDriven, ..UartConfig::default() };
    let mut serial = match start(CLOCK, config, Installation::BothRunning) {
        Ok(Startup::Ready(serial)) => serial,
        _ => panic!("expected a UART"),
    };
    assert_eq!(serial.config(), config);
    assert_eq!(serial.baud(), 9_600);
    assert_eq!(serial.clock_hz(), CLOCK);
    assert_eq!(serial.data_bits(), DataBits::Eight);
    assert_eq!(serial.parity(), Parity::NoParity);
    assert_eq!(serial.stop_bits(), StopBits::One);
    assert!(!serial.auto_echo());
    assert_eq!(serial.service_mode(), ServiceMode::InterruptDriven);
    assert_eq!((serial.dropped_tx(), serial.dropped_rx()), (0, 0));
    assert_eq!((serial.tx_pending(), serial.available()), (0, 0));
    serial.set_auto_echo(true);
    assert!(serial.auto_echo());
    serial.set_service_mode(ServiceMode::Polling);
    assert_eq!(serial.service_mode(), ServiceMode::Polling);
    assert_eq!(
        serial.config(),
        UartConfig { auto_echo: true, service_mode: ServiceMode::Polling, ..config }
    );
}
