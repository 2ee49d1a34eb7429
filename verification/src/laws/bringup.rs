//! What holds of bringing up a UART.
use crate::clock::{
    law_char_cycles_bounds, law_divisor_rounds_down, law_registers_hold_the_divisor, law_registers_make_up_the_quotient,
};
use crate::config::{DataBits, InitError, Parity, StopBits, UartConfig};
use crate::serial::{fresh, refusal, rx_machine, tx_machine, Installation, PinDirection};
use crate::wire::ShiftDirection;
use vstd::prelude::*;

verus! {

/// Both machines run at the asked baud rate: wherever a bit takes at least 1/32
/// of a system clock cycle and less than 8 * 65536 of them, the divisor in the
/// registers, in units of 1/256, is the exact quotient of the clock and eight
/// times the baud rate, rounded down.
pub proof fn law_machines_run_at_the_baud_rate(pin: u8, clock_hz: u32, baud: u32)
    requires
        baud != 0,
        baud * 8 <= clock_hz * 256,
        clock_hz < baud * 8 * 0x1_0000,
    ensures
        ({
            let setup = tx_machine(pin, clock_hz, baud);
            let v = setup.divisor_int * 256 + setup.divisor_frac;
            baud * 8 * v <= clock_hz * 256 < baud * 8 * (v + 1)
        }),
        ({
            let setup = rx_machine(pin, clock_hz, baud);
            let v = setup.divisor_int * 256 + setup.divisor_frac;
            baud * 8 * v <= clock_hz * 256 < baud * 8 * (v + 1)
        }),
{
    law_divisor_rounds_down(clock_hz, baud);
    law_registers_hold_the_divisor(clock_hz, baud);
    law_registers_make_up_the_quotient(clock_hz, baud);
}

/// The two machines differ in pin, pin direction and shift direction only: the
/// transmitter drives its pin and shifts to the right, the receiver reads its
/// pin and shifts to the left, neither moves words of itself, and both run at
/// the same rate, which does not depend on the pin.
pub proof fn law_machines_match(tx_pin: u8, rx_pin: u8, clock_hz: u32, baud: u32)
    requires
        baud != 0,
    ensures
        ({
            let tx = tx_machine(tx_pin, clock_hz, baud);
            let rx = rx_machine(rx_pin, clock_hz, baud);
            &&& tx.pin == tx_pin && rx.pin == rx_pin
            &&& tx.pin_direction == PinDirection::Output
            &&& rx.pin_direction == PinDirection::Input
            &&& tx.shift == ShiftDirection::Right && rx.shift == ShiftDirection::Left
            &&& !tx.auto_transfer && !rx.auto_transfer
            &&& tx.divisor_int == rx.divisor_int && tx.divisor_frac == rx.divisor_frac
            &&& tx.divisor_int * 256 + tx.divisor_frac == ((clock_hz * 256) / (baud * 8))
                % 0x100_0000
        }),
{
    law_registers_make_up_the_quotient(clock_hz, baud);
}

/// Every reason to refuse a UART comes on its own inputs and on no others. A
/// clock or baud rate of zero comes before the format, the format before the
/// divisor, and all of them before what became of the installation.
pub proof fn law_refusals(clock_hz: u32, config: UartConfig, done: Installation)
    ensures
        ({
            let refused = refusal(clock_hz, config, done);
            let speaks = config.data_bits == DataBits::Eight && config.parity == Parity::NoParity
                && config.stop_bits == StopBits::One;
            let quotient = (clock_hz * 256) / (config.baud * 8);
            let runs = clock_hz != 0 && config.baud != 0 && quotient % 0x100_0000 != 0;
            &&& refused == Some(InitError::InvalidBaud) <==> clock_hz == 0 || config.baud == 0 || (
            speaks && !runs)
            &&& refused == Some(InitError::UnsupportedConfig) <==> clock_hz != 0 && config.baud
                != 0 && !speaks
            &&& refused == Some(InitError::InstallTxProgram) <==> speaks && runs
                && done == Installation::TxFailed
            &&& refused == Some(InitError::InstallRxProgram) <==> speaks && runs
                && done == Installation::RxFailed
        }),
{
    if config.baud != 0 {
        law_registers_make_up_the_quotient(clock_hz, config.baud);
    }
}

/// Wherever a bit takes at least 1/32 of a system clock cycle and less than
/// 8 * 65536 of them, 8N1 settings are not refused.
pub proof fn law_usual_settings_are_accepted(clock_hz: u32, config: UartConfig)
    requires
        config.baud != 0,
        config.baud * 8 <= clock_hz * 256,
        clock_hz < config.baud * 8 * 0x1_0000,
        config.data_bits == DataBits::Eight,
        config.parity == Parity::NoParity,
        config.stop_bits == StopBits::One,
    ensures
        refusal(clock_hz, config, Installation::NotStarted) is None,
        refusal(clock_hz, config, Installation::TxRunning) is None,
        refusal(clock_hz, config, Installation::BothRunning) is None,
{
    law_registers_hold_the_divisor(clock_hz, config.baud);
}

/// A UART that was not refused begins with the settings and the clock that were
/// asked for, with empty buffers, with nothing counted and with a silent line.
pub proof fn law_fresh_uart(
    clock_hz: u32,
    config: UartConfig,
    tx_capacity: nat,
    rx_capacity: nat,
)
    requires
        refusal(clock_hz, config, Installation::BothRunning) is None,
    ensures
        ({
            let s = fresh(clock_hz, config, tx_capacity, rx_capacity);
            &&& s.inv()
            &&& s.config == config && s.clock_hz == clock_hz
            &&& s.tx_capacity == tx_capacity && s.rx_capacity == rx_capacity
            &&& s.tx.len() == 0 && s.rx.len() == 0
            &&& s.dropped_tx == 0 && s.dropped_rx == 0
            &&& !s.drain_pending
        }),
{
    law_char_cycles_bounds(clock_hz, config.frame_len() as u32, config.baud);
}

} // verus!
