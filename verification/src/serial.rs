//! The UART itself: buffers, counters and the order of things.
use crate::clock::{
    calc_char_delay_cycles, calc_clkdiv, char_cycles, divisible, divisor_frac, divisor_int,
    law_divisor_rounds_down, lemma_quotient_fits,
};
use crate::config::{DataBits, InitError, Parity, ServiceMode, StopBits, UartConfig};
use crate::job::{lemma_queue_len, queue_len, Job, Payload, Stage};
use crate::laws::receiving::{law_awaited_byte, law_filling_step, law_offered_bytes};
use crate::laws::sending::law_wait_lasts_as_long_as_the_characters;
use crate::laws::{law_line_in_order, law_send_in_order};
use crate::model::{
    advance, await_byte, blocking, fill, flush_plan, newline, outcome, plan, send_plan, send_steps,
    Action, Event, Filling, Program, Reception, State, Step,
};
use crate::queue::ByteQueue;
use crate::wire::{decode, ShiftDirection};
use vstd::prelude::*;
use vstd::string::StringSliceAdditionalSpecFns;

verus! {

/// Which way a pin works.
#[derive(Debug, Clone, Copy, PartialEq, Eq, Structural)]
pub enum PinDirection {
    Input,
    Output,
}

/// How a state machine is to be set up for its program.
#[derive(Debug, Clone, Copy, PartialEq, Eq, Structural)]
pub struct MachineSetup {
    /// The number of the one GPIO pin that the machine works on.
    pub pin: u8,
    pub pin_direction: PinDirection,
    /// The clock divisor: whole part and units of 1/256.
    pub divisor_int: u16,
    pub divisor_frac: u8,
    pub shift: ShiftDirection,
    /// Whether the machine moves words to or from the FIFO of itself.
    pub auto_transfer: bool,
}

/// How far the two state machines are installed.
#[derive(Debug, Clone, Copy, PartialEq, Eq, Structural)]
pub enum Installation {
    /// Nothing was tried yet.
    NotStarted,
    /// The transmit program could not be installed.
    TxFailed,
    /// The transmit machine runs.
    TxRunning,
    /// The transmit machine runs; the receive program could not be installed.
    RxFailed,
    /// Both machines run.
    BothRunning,
}

/// What a UART that is being brought up needs next.
pub enum Startup<const TX_BUF: usize, const RX_BUF: usize> {
    /// Install the transmit program and start its machine.
    InstallTx(MachineSetup),
    /// Install the receive program and start its machine.
    InstallRx(MachineSetup),
    /// Nothing more.
    Ready(RpPioSerial<TX_BUF, RX_BUF>),
}

/// A UART on two PIO state machines, with software buffers of `TX_BUF - 1`
/// and `RX_BUF - 1` bytes.
///
/// It holds everything but the hardware. Each operation that needs the
/// hardware says what is to be done to it and takes what came of that.
pub struct RpPioSerial<const TX_BUF: usize, const RX_BUF: usize> {
    tx_buf: ByteQueue<TX_BUF>,
    rx_buf: ByteQueue<RX_BUF>,
    config: UartConfig,
    clock_hz: u32,
    char_delay_cycles: u32,
    dropped_tx: u32,
    dropped_rx: u32,
    hw_drain_pending: bool,
}

impl<const TX_BUF: usize, const RX_BUF: usize> View for RpPioSerial<TX_BUF, RX_BUF> {
    type V = State;

    closed spec fn view(&self) -> State {
        State {
            config: self.config,
            clock_hz: self.clock_hz,
            char_delay_cycles: self.char_delay_cycles,
            tx_capacity: (TX_BUF - 1) as nat,
            rx_capacity: (RX_BUF - 1) as nat,
            tx: self.tx_buf@,
            rx: self.rx_buf@,
            dropped_tx: self.dropped_tx,
            dropped_rx: self.dropped_rx,
            drain_pending: self.hw_drain_pending,
        }
    }
}

/// The buffer sizes that a queue can have: room for one byte at least, and no
/// more than fits in memory.
pub open spec fn valid_sizes(tx_buf: usize, rx_buf: usize) -> bool {
    1 < tx_buf <= isize::MAX && 1 < rx_buf <= isize::MAX
}

/// The transmit machine: it drives its pin and shifts words out to the right.
pub open spec fn tx_machine(tx_pin: u8, clock_hz: u32, baud: u32) -> MachineSetup {
    MachineSetup {
        pin: tx_pin,
        pin_direction: PinDirection::Output,
        divisor_int: divisor_int(clock_hz, baud) as u16,
        divisor_frac: divisor_frac(clock_hz, baud) as u8,
        shift: ShiftDirection::Right,
        auto_transfer: false,
    }
}

/// The receive machine: it reads its pin and shifts bits in to the left.
pub open spec fn rx_machine(rx_pin: u8, clock_hz: u32, baud: u32) -> MachineSetup {
    MachineSetup {
        pin: rx_pin,
        pin_direction: PinDirection::Input,
        divisor_int: divisor_int(clock_hz, baud) as u16,
        divisor_frac: divisor_frac(clock_hz, baud) as u8,
        shift: ShiftDirection::Left,
        auto_transfer: false,
    }
}

/// A UART that has just been brought up.
pub open spec fn fresh(
    clock_hz: u32,
    config: UartConfig,
    tx_capacity: nat,
    rx_capacity: nat,
) -> State {
    State {
        config,
        clock_hz,
        char_delay_cycles: char_cycles(clock_hz, config.frame_len() as u32, config.baud) as u32,
        tx_capacity,
        rx_capacity,
        tx: Seq::empty(),
        rx: Seq::empty(),
        dropped_tx: 0,
        dropped_rx: 0,
        drain_pending: false,
    }
}

/// Why a UART cannot be brought up, if it cannot.
pub open spec fn refusal(clock_hz: u32, config: UartConfig, done: Installation) -> Option<InitError> {
    if clock_hz == 0 || config.baud == 0 {
        Some(InitError::InvalidBaud)
    } else if !config.supported() {
        Some(InitError::UnsupportedConfig)
    } else if !divisible(clock_hz, config.baud) {
        Some(InitError::InvalidBaud)
    } else {
        match done {
            Installation::TxFailed => Some(InitError::InstallTxProgram),
            Installation::RxFailed => Some(InitError::InstallRxProgram),
            _ => None,
        }
    }
}

impl<const TX_BUF: usize, const RX_BUF: usize> RpPioSerial<TX_BUF, RX_BUF> {
    /// What every operation keeps.
    pub open spec fn wf(self) -> bool {
        &&& valid_sizes(TX_BUF, RX_BUF)
        &&& self@.tx_capacity == TX_BUF - 1
        &&& self@.rx_capacity == RX_BUF - 1
        &&& self@.inv()
    }

    /// Brings up a UART on two state machines of one PIO block.
    ///
    /// The settings are checked before anything is installed. Then the
    /// transmit machine is to be installed and started, then the receive
    /// machine, and then the UART is ready; `done` says how far that has got.
    ///
    /// The pins must already be switched to the PIO.
    pub fn new(
        tx_pin: u8,
        rx_pin: u8,
        clock_hz: u32,
        config: UartConfig,
        done: Installation,
    ) -> (result: Result<Startup<TX_BUF, RX_BUF>, InitError>)
        requires
            valid_sizes(TX_BUF, RX_BUF),
        ensures
            result is Err <==> refusal(clock_hz, config, done) is Some,
            result is Err ==> refusal(clock_hz, config, done) == Some(result->Err_0),
            result is Ok ==> match done {
                Installation::NotStarted => result->Ok_0 == Startup::<TX_BUF, RX_BUF>::InstallTx(
                    tx_machine(tx_pin, clock_hz, config.baud),
                ),
                Installation::TxRunning => result->Ok_0 == Startup::<TX_BUF, RX_BUF>::InstallRx(
                    rx_machine(rx_pin, clock_hz, config.baud),
                ),
                Installation::BothRunning => {
                    &&& result->Ok_0 matches Startup::Ready(serial)
                    &&& serial.wf()
                    &&& serial@ == fresh(
                        clock_hz,
                        config,
                        (TX_BUF - 1) as nat,
                        (RX_BUF - 1) as nat,
                    )
                },
                Installation::TxFailed | Installation::RxFailed => false,
            },
            ({
                let speaks = config.data_bits == DataBits::Eight && config.parity
                    == Parity::NoParity && config.stop_bits == StopBits::One;
                let quotient = (clock_hz * 256) / (config.baud * 8);
                let runs = clock_hz != 0 && config.baud != 0 && quotient % 0x100_0000 != 0;
                &&& result is Err && result->Err_0 == InitError::InvalidBaud <==> clock_hz == 0
                    || config.baud == 0 || (speaks && !runs)
                &&& result is Err && result->Err_0 == InitError::UnsupportedConfig <==> clock_hz
                    != 0 && config.baud != 0 && !speaks
                &&& result is Err && result->Err_0 == InitError::InstallTxProgram <==> speaks
                    && runs && done == Installation::TxFailed
                &&& result is Err && result->Err_0 == InitError::InstallRxProgram <==> speaks
                    && runs && done == Installation::RxFailed
            }),
            result is Ok ==> match result->Ok_0 {
                Startup::InstallTx(setup) => {
                    let v = setup.divisor_int * 256 + setup.divisor_frac;
                    &&& setup.pin == tx_pin && setup.pin_direction == PinDirection::Output
                    &&& setup.shift == ShiftDirection::Right && !setup.auto_transfer
                    &&& v == ((clock_hz * 256) / (config.baud * 8)) % 0x100_0000
                    &&& clock_hz < config.baud * 8 * 0x1_0000 ==> config.baud * 8 * v <= clock_hz
                        * 256 < config.baud * 8 * (v + 1)
                },
                Startup::InstallRx(setup) => {
                    let v = setup.divisor_int * 256 + setup.divisor_frac;
                    &&& setup.pin == rx_pin && setup.pin_direction == PinDirection::Input
                    &&& setup.shift == ShiftDirection::Left && !setup.auto_transfer
                    &&& v == ((clock_hz * 256) / (config.baud * 8)) % 0x100_0000
                    &&& clock_hz < config.baud * 8 * 0x1_0000 ==> config.baud * 8 * v <= clock_hz
                        * 256 < config.baud * 8 * (v + 1)
                },
                Startup::Ready(serial) => {
                    &&& serial@.config == config && serial@.clock_hz == clock_hz
                    &&& serial@.tx.len() == 0 && serial@.rx.len() == 0
                    &&& serial@.dropped_tx == 0 && serial@.dropped_rx == 0
                    &&& !serial@.drain_pending
                },
            },
    {
        if clock_hz == 0 || config.baud == 0 {
            return Err(InitError::InvalidBaud);
        }
        if !config.is_supported_by_current_backend() {
            return Err(InitError::UnsupportedConfig);
        }
        let (divisor_int, divisor_frac) = match calc_clkdiv(clock_hz, config.baud) {
            Ok(divisor) => divisor,
            Err(error) => return Err(error),
        };
        proof {
            if clock_hz < config.baud * 8 * 0x1_0000 {
                law_divisor_rounds_down(clock_hz, config.baud);
                lemma_quotient_fits(clock_hz, config.baud);
            }
        }
        let char_delay_cycles: u32 = calc_char_delay_cycles(
            clock_hz,
            config.frame_bits(),
            config.baud,
        );
        match done {
            Installation::NotStarted => Ok(
                Startup::InstallTx(
                    MachineSetup {
                        pin: tx_pin,
                        pin_direction: PinDirection::Output,
                        divisor_int,
                        divisor_frac,
                        shift: ShiftDirection::Right,
                        auto_transfer: false,
                    },
                ),
            ),
            Installation::TxFailed => Err(InitError::InstallTxProgram),
            Installation::TxRunning => Ok(
                Startup::InstallRx(
                    MachineSetup {
                        pin: rx_pin,
                        pin_direction: PinDirection::Input,
                        divisor_int,
                        divisor_frac,
                        shift: ShiftDirection::Left,
                        auto_transfer: false,
                    },
                ),
            ),
            Installation::RxFailed => Err(InitError::InstallRxProgram),
            Installation::BothRunning => {
                let serial = RpPioSerial {
                    tx_buf: ByteQueue::new(),
                    rx_buf: ByteQueue::new(),
                    config,
                    clock_hz,
                    char_delay_cycles,
                    dropped_tx: 0,
                    dropped_rx: 0,
                    hw_drain_pending: false,
                };
                Ok(Startup::Ready(serial))
            },
        }
    }

    /// Offers bytes to the transmit buffer until one finds it full. Returns
    /// how many it took.
    fn enqueue_tx(&mut self, data: &[u8]) -> (n: usize)
        requires
            old(self).wf(),
        ensures
            final(self).wf(),
            final(self)@ == old(self)@.offer(data@),
            n == old(self)@.accepts(data@.len()),
    {
        let mut n: usize = 0;
        while n < data.len()
            invariant
                n <= data@.len(),
                old(self).wf(),
                self.wf(),
                n <= old(self)@.tx_capacity - old(self)@.tx.len(),
                self@ == (State { tx: old(self)@.tx + data@.take(n as int), ..old(self)@ }),
            decreases data@.len() - n,
        {
            if self.tx_buf.enqueue(data[n]).is_ok() {
                assert(data@.take(n + 1) =~= data@.take(n as int).push(data@[n as int]));
                assert(self@.tx =~= old(self)@.tx + data@.take(n + 1));
                n = n + 1;
            } else {
                self.dropped_tx = self.dropped_tx.wrapping_add(1);
                return n;
            }
        }
        assert(data@.take(n as int) =~= data@);
        n
    }

    /// Keeps the byte of a word of the receive FIFO, and queues it to be sent
    /// back where echo is on.
    fn pump_rx(&mut self, word: u32)
        requires
            old(self).wf(),
        ensures
            final(self).wf(),
            final(self)@ == old(self)@.receive(word),
    {
        let byte: u8 = decode(word);
        if self.rx_buf.enqueue(byte).is_err() {
            self.dropped_rx = self.dropped_rx.wrapping_add(1);
        }
        if self.config.auto_echo {
            let ghost kept = self@;
            if self.tx_buf.enqueue(byte).is_err() {
                self.dropped_tx = self.dropped_tx.wrapping_add(1);
            }
            proof {
                let one = seq![byte];
                assert(one.take(1) =~= one);
                assert(one.take(0) =~= Seq::<u8>::empty());
                assert(kept.tx.push(byte) =~= kept.tx + one.take(1));
                assert(kept.tx =~= kept.tx + one.take(0));
            }
        }
    }

    /// Returns how many system clock cycles `chars` characters take.
    fn wait_chars(&self, chars: u32) -> (cycles: u32)
        ensures
            cycles == self@.cycles(chars),
            self.wf() ==> ({
                let exact = (self@.clock_hz * 10) / (self@.config.baud as int);
                let per_char = if exact < 1 { 1 } else { exact };
                let count = if chars < 1 { 1 } else { chars as int };
                cycles == if per_char * count > u32::MAX {
                    u32::MAX as int
                } else {
                    per_char * count
                }
            }),
    {
        proof {
            if self.wf() {
                law_wait_lasts_as_long_as_the_characters(self@, chars);
            }
        }
        let chars: u64 = if chars < 1 { 1 } else { chars as u64 };
        assert(0 <= self.char_delay_cycles * chars <= u32::MAX * u32::MAX) by (nonlinear_arith)
            requires
                self.char_delay_cycles <= u32::MAX,
                chars <= u32::MAX,
        ;
        let cycles: u64 = (self.char_delay_cycles as u64) * chars;
        if cycles > u32::MAX as u64 {
            u32::MAX
        } else {
            cycles as u32
        }
    }

    /// Takes the next waiting byte for a transmit FIFO that has room.
    fn next_tx_word(&mut self) -> (word: Option<u32>)
        requires
            old(self).wf(),
        ensures
            final(self).wf(),
            old(self)@.tx.len() == 0 ==> word is None && final(self)@ == old(self)@,
            old(self)@.tx.len() > 0 ==> word == Some(old(self)@.tx[0] as u32) && final(self)@
                == old(self)@.send_front(),
    {
        match self.tx_buf.dequeue() {
            Some(byte) => {
                self.hw_drain_pending = true;
                Some(byte as u32)
            },
            None => None,
        }
    }

    /// Moves one waiting byte to the transmit FIFO if it has room. Returns
    /// `None` when the FIFO is full or no byte is left.
    fn flush_tx_nonblocking(&mut self, event: Event) -> (action: Option<Action>)
        requires
            old(self).wf(),
        ensures
            final(self).wf(),
            match event {
                Event::TxRoom => if old(self)@.tx.len() == 0 {
                    action is None && final(self)@ == old(self)@
                } else {
                    action == Some(Action::WriteTx(old(self)@.tx[0] as u32)) && final(self)@
                        == old(self)@.send_front()
                },
                Event::TxFull => action is None && final(self)@ == old(self)@,
                _ => action == Some(Action::TestTx) && final(self)@ == old(self)@,
            },
    {
        match event {
            Event::TxRoom => match self.next_tx_word() {
                Some(word) => Some(Action::WriteTx(word)),
                None => None,
            },
            Event::TxFull => None,
            _ => Some(Action::TestTx),
        }
    }

    /// Resumes a job with what the driver has to say, and returns what the
    /// driver has to do next.
    ///
    /// A driver starts with `Event::Continue`, takes each action and reports
    /// what came of it, until the action is `Action::Done`.
    pub fn step(&mut self, job: &mut Job<'_>, event: Event) -> (action: Action)
        requires
            old(self).wf(),
            old(job).wf(),
        ensures
            final(self).wf(),
            final(job).wf(),
            (final(self)@, final(job)@, action) == advance(old(self)@, old(job)@, event),
    {
        let mut answer: Event = event;
        loop
            invariant
                self.wf(),
                job.wf(),
                advance(self@, job@, answer) == advance(old(self)@, old(job)@, event),
            decreases job@.steps.len(),
        {
            let stage = match job.stage() {
                Some(stage) => stage,
                None => return Action::Done,
            };
            match stage {
                Stage::Pump => match answer {
                    Event::RxWord(word) => {
                        self.pump_rx(word);
                        return Action::ReadRx;
                    },
                    Event::RxEmpty => {
                        job.leave_stage(0);
                    },
                    _ => {
                        return Action::ReadRx;
                    },
                },
                Stage::Flush => match self.flush_tx_nonblocking(answer) {
                    Some(action) => {
                        return action;
                    },
                    None => {
                        job.leave_stage(0);
                    },
                },
                Stage::Queue(data) => {
                    let n: usize = self.enqueue_tx(data);
                    job.leave_stage(n);
                },
                Stage::Drain => if self.tx_buf.len() == 0 {
                    job.leave_stage(0);
                } else {
                    match answer {
                        Event::TxFull => {
                            return Action::Spin;
                        },
                        Event::TxRoom => match self.next_tx_word() {
                            Some(word) => {
                                return Action::WriteTx(word);
                            },
                            None => {
                                job.leave_stage(0);
                            },
                        },
                        _ => {
                            return Action::TestTx;
                        },
                    }
                },
                Stage::Send(payload) => match payload.split_first() {
                    None => {
                        job.leave_stage(0);
                    },
                    Some((byte, rest)) => {
                        match answer {
                            Event::TxRoom => {
                                self.hw_drain_pending = true;
                                job.change_stage(Stage::Send(rest));
                                return Action::WriteTx(byte as u32);
                            },
                            Event::TxFull => {
                                return Action::Spin;
                            },
                            _ => {
                                return Action::TestTx;
                            },
                        }
                    },
                },
                Stage::Settle => {
                    job.leave_stage(0);
                    if self.hw_drain_pending {
                        let cycles: u32 = self.wait_chars(self.config.tx_pipeline_chars);
                        self.hw_drain_pending = false;
                        return Action::Delay(cycles);
                    }
                },
            }
            answer = Event::Continue;
        }
    }

    // ---- Settings and counters ----

    /// Returns the settings.
    pub fn config(&self) -> (value: UartConfig)
        ensures
            value == self@.config,
    {
        self.config
    }

    /// Returns the baud rate.
    pub fn baud(&self) -> (value: u32)
        ensures
            value == self@.config.baud,
    {
        self.config.baud
    }

    /// Returns the system clock that the UART was set up for.
    pub fn clock_hz(&self) -> (value: u32)
        ensures
            value == self@.clock_hz,
    {
        self.clock_hz
    }

    /// Returns the data bits of a character.
    pub fn data_bits(&self) -> (value: DataBits)
        ensures
            value == self@.config.data_bits,
    {
        self.config.data_bits
    }

    /// Returns the parity bit of a character.
    pub fn parity(&self) -> (value: Parity)
        ensures
            value == self@.config.parity,
    {
        self.config.parity
    }

    /// Returns the stop bits of a character.
    pub fn stop_bits(&self) -> (value: StopBits)
        ensures
            value == self@.config.stop_bits,
    {
        self.config.stop_bits
    }

    /// Returns whether received bytes are sent back.
    pub fn auto_echo(&self) -> (value: bool)
        ensures
            value == self@.config.auto_echo,
    {
        self.config.auto_echo
    }

    /// Returns how the UART is served.
    pub fn service_mode(&self) -> (value: ServiceMode)
        ensures
            value == self@.config.service_mode,
    {
        self.config.service_mode
    }

    /// Sets whether received bytes are sent back.
    pub fn set_auto_echo(&mut self, enable: bool)
        requires
            old(self).wf(),
        ensures
            final(self).wf(),
            final(self)@ == (State {
                config: UartConfig { auto_echo: enable, ..old(self)@.config },
                ..old(self)@
            }),
    {
        self.config.auto_echo = enable;
    }

    /// Sets how the UART is served.
    pub fn set_service_mode(&mut self, mode: ServiceMode)
        requires
            old(self).wf(),
        ensures
            final(self).wf(),
            final(self)@ == (State {
                config: UartConfig { service_mode: mode, ..old(self)@.config },
                ..old(self)@
            }),
    {
        self.config.service_mode = mode;
    }

    /// Returns how often a byte to send found the transmit buffer full.
    pub fn dropped_tx(&self) -> (value: u32)
        ensures
            value == self@.dropped_tx,
    {
        self.dropped_tx
    }

    /// Returns how often a received byte found the receive buffer full.
    pub fn dropped_rx(&self) -> (value: u32)
        ensures
            value == self@.dropped_rx,
    {
        self.dropped_rx
    }

    /// Returns how many received bytes wait to be read.
    pub fn available(&self) -> (n: usize)
        ensures
            n == self@.rx.len(),
    {
        self.rx_buf.len()
    }

    /// Returns how many bytes wait in the transmit buffer.
    pub fn tx_pending(&self) -> (n: usize)
        ensures
            n == self@.tx.len(),
    {
        self.tx_buf.len()
    }

    /// Throws away the received bytes that wait to be read.
    pub fn clear_rx(&mut self)
        requires
            old(self).wf(),
        ensures
            final(self).wf(),
            final(self)@ == (State { rx: Seq::empty(), ..old(self)@ }),
    {
        while self.rx_buf.dequeue().is_some()
            invariant
                self.wf(),
                self@ == (State { rx: self@.rx, ..old(self)@ }),
            decreases self@.rx.len(),
        {
        }
        assert(self@.rx =~= Seq::empty());
    }

    /// Throws away the bytes that wait in the transmit buffer.
    pub fn clear_tx_buffer(&mut self)
        requires
            old(self).wf(),
        ensures
            final(self).wf(),
            final(self)@ == (State { tx: Seq::empty(), ..old(self)@ }),
    {
        while self.tx_buf.dequeue().is_some()
            invariant
                self.wf(),
                self@ == (State { tx: self@.tx, ..old(self)@ }),
            decreases self@.tx.len(),
        {
        }
        assert(self@.tx =~= Seq::empty());
    }

    // ---- Service ----

    /// Serves both directions once: empties the receive FIFO, then fills the
    /// transmit FIFO.
    pub fn poll<'a>(&self) -> (job: Job<'a>)
        ensures
            job.wf(),
            job@ == (Program { steps: seq![Step::Pump, Step::Flush], written: 0 }),
    {
        let pad = Stage::Settle;
        let stages = [Stage::Pump, Stage::Flush, pad, pad, pad, pad, pad, pad];
        proof {
            reveal_with_fuel(queue_len, 3);
            assert(Seq::new(2, |i: int| stages@[i]@) =~= seq![Step::Pump, Step::Flush]);
        }
        Job::new(stages, 2, 0)
    }

    /// Serves both directions once, from the interrupt handler of the PIO.
    pub fn on_interrupt<'a>(&self) -> (job: Job<'a>)
        ensures
            job.wf(),
            job@ == (Program { steps: seq![Step::Pump, Step::Flush], written: 0 }),
    {
        self.poll()
    }

    /// Fills the transmit FIFO, for an application that is served by
    /// interrupts and has just written.
    pub fn kick_tx<'a>(&self) -> (job: Job<'a>)
        ensures
            job.wf(),
            job@ == (Program { steps: seq![Step::Flush], written: 0 }),
    {
        self.flushing(0)
    }

    /// A job that fills the transmit FIFO.
    fn flushing<'a>(&self, written: usize) -> (job: Job<'a>)
        ensures
            job.wf(),
            job@ == (Program { steps: seq![Step::Flush], written: written as nat }),
    {
        let pad = Stage::Settle;
        let stages = [Stage::Flush, pad, pad, pad, pad, pad, pad, pad];
        proof {
            reveal_with_fuel(queue_len, 2);
            assert(Seq::new(1, |i: int| stages@[i]@) =~= seq![Step::Flush]);
        }
        Job::new(stages, 1, written)
    }

    // ---- Sending without waiting ----

    /// Writes bytes without waiting: the transmit buffer takes what it has
    /// room for, and the job fills the transmit FIFO.
    ///
    /// Returns how many bytes the transmit buffer took.
    pub fn write<'a>(&mut self, data: &[u8]) -> (result: (usize, Job<'a>))
        requires
            old(self).wf(),
        ensures
            final(self).wf(),
            final(self)@ == old(self)@.offer(data@),
            result.0 == old(self)@.accepts(data@.len()),
            result.1.wf(),
            result.1@ == (Program { steps: seq![Step::Flush], written: result.0 as nat }),
            result.0 <= data@.len(),
            result.0 == data@.len() || old(self)@.tx.len() + result.0 == old(self)@.tx_capacity,
            final(self)@ == (State {
                tx: old(self)@.tx + data@.take(result.0 as int),
                dropped_tx: if result.0 < data@.len() {
                    ((old(self)@.dropped_tx + 1) % 0x1_0000_0000) as u32
                } else {
                    old(self)@.dropped_tx
                },
                ..old(self)@
            }),
    {
        proof {
            law_offered_bytes(self@, data@);
        }
        let n: usize = self.enqueue_tx(data);
        (n, self.flushing(n))
    }

    /// Writes one byte without waiting. Returns whether the transmit buffer
    /// took it.
    pub fn write_byte<'a>(&mut self, byte: u8) -> (result: (bool, Job<'a>))
        requires
            old(self).wf(),
        ensures
            final(self).wf(),
            final(self)@ == old(self)@.offer(seq![byte]),
            result.0 == (old(self)@.tx.len() < old(self)@.tx_capacity),
            result.1.wf(),
            result.1@ == (Program {
                steps: seq![Step::Flush],
                written: if result.0 {
                    1
                } else {
                    0
                },
            }),
    {
        let data = [byte];
        assert(data@ =~= seq![byte]);
        let (n, job) = self.write(data.as_slice());
        (n == 1, job)
    }

    /// Writes a text without waiting. Returns how many of its bytes the
    /// transmit buffer took.
    pub fn print<'a>(&mut self, s: &str) -> (result: (usize, Job<'a>))
        requires
            old(self).wf(),
        ensures
            final(self).wf(),
            final(self)@ == old(self)@.offer(s.spec_bytes()),
            result.0 == old(self)@.accepts(s.spec_bytes().len()),
            result.1.wf(),
            result.1@ == (Program { steps: seq![Step::Flush], written: result.0 as nat }),
    {
        self.write(s.as_bytes())
    }

    /// Writes a text and a line end without waiting. The line end follows
    /// once the transmit FIFO has been filled; what the job has written at
    /// its end counts the bytes of both.
    pub fn println<'a>(&mut self, s: &str) -> (job: Job<'a>)
        requires
            old(self).wf(),
        ensures
            final(self).wf(),
            final(self)@ == old(self)@.offer(s.spec_bytes()),
            job.wf(),
            job@ == (Program {
                steps: seq![Step::Flush, Step::Queue(newline()), Step::Flush],
                written: old(self)@.accepts(s.spec_bytes().len()),
            }),
            job@.steps == seq![Step::Flush, Step::Queue(seq![13u8, 10u8]), Step::Flush],
    {
        let n: usize = self.enqueue_tx(s.as_bytes());
        let pad = Stage::Settle;
        let end = line_end();
        let stages = [Stage::Flush, Stage::Queue(end), Stage::Flush, pad, pad, pad, pad, pad];
        proof {
            let steps = seq![Step::Flush, Step::Queue(newline()), Step::Flush];
            assert(Seq::new(3, |i: int| stages@[i]@) =~= steps);
            reveal_with_fuel(queue_len, 4);
            assert(steps.drop_first()[0] == Step::Queue(newline()));
        }
        Job::new(stages, 3, n)
    }

    // ---- Sending and waiting ----

    /// Sends all that waits in the transmit buffer, and waits until it has
    /// left the line.
    pub fn flush_blocking<'a>(&self) -> (job: Job<'a>)
        ensures
            job.wf(),
            job@ == (Program { steps: seq![Step::Drain, Step::Settle], written: 0 }),
            blocking(job@.steps),
            plan(self@, job@.steps) == flush_plan(self@),
            outcome(self@, job@.steps) == (State {
                tx: Seq::empty(),
                drain_pending: false,
                ..self@
            }),
    {
        let pad = Stage::Settle;
        let stages = [Stage::Drain, Stage::Settle, pad, pad, pad, pad, pad, pad];
        proof {
            let steps = seq![Step::Drain, Step::Settle];
            assert(Seq::new(2, |i: int| stages@[i]@) =~= steps);
            reveal_with_fuel(queue_len, 3);
            reveal_with_fuel(plan, 3);
            reveal_with_fuel(outcome, 3);
            assert(steps.drop_first() =~= seq![Step::Settle]);
            assert(plan(self@, steps) =~= flush_plan(self@));
        }
        Job::new(stages, 2, 0)
    }

    /// A job that sends all that waits and then `payload`, and waits after
    /// each until it has left the line.
    fn sending<'a>(&self, payload: Payload<'a>) -> (job: Job<'a>)
        ensures
            job.wf(),
            job@ == (Program { steps: send_steps(payload@), written: 0 }),
            job@.steps == seq![Step::Drain, Step::Settle, Step::Send(payload@), Step::Settle],
            blocking(job@.steps),
            plan(self@, job@.steps) == flush_plan(self@) + send_plan(self@, payload@),
            outcome(self@, job@.steps) == (State {
                tx: Seq::empty(),
                drain_pending: false,
                ..self@
            }),
    {
        let pad = Stage::Settle;
        let stages = [
            Stage::Drain,
            Stage::Settle,
            Stage::Send(payload),
            Stage::Settle,
            pad,
            pad,
            pad,
            pad,
        ];
        proof {
            assert(Seq::new(4, |i: int| stages@[i]@) =~= send_steps(payload@));
            lemma_queue_len(send_steps(payload@));
            law_send_in_order(self@, payload@);
        }
        Job::new(stages, 4, 0)
    }

    /// Sends all that waits and then `data`, past the transmit buffer, and
    /// waits until it has left the line. Neither the room in the transmit
    /// buffer nor a later `poll` matters.
    pub fn write_all_blocking<'a>(&self, data: &'a [u8]) -> (job: Job<'a>)
        ensures
            job.wf(),
            job@.written == 0,
            job@.steps == seq![Step::Drain, Step::Settle, Step::Send(data@), Step::Settle],
            blocking(job@.steps),
            plan(self@, job@.steps) == flush_plan(self@) + send_plan(self@, data@),
            outcome(self@, job@.steps) == (State {
                tx: Seq::empty(),
                drain_pending: false,
                ..self@
            }),
    {
        self.sending(Payload::Bytes(data))
    }

    /// Sends all that waits and then one byte, and waits until it has left
    /// the line.
    pub fn write_byte_blocking<'a>(&self, byte: u8) -> (job: Job<'a>)
        ensures
            job.wf(),
            job@.written == 0,
            job@.steps == seq![Step::Drain, Step::Settle, Step::Send(seq![byte]), Step::Settle],
            blocking(job@.steps),
            plan(self@, job@.steps) == flush_plan(self@) + send_plan(self@, seq![byte]),
            outcome(self@, job@.steps) == (State {
                tx: Seq::empty(),
                drain_pending: false,
                ..self@
            }),
    {
        let payload = Payload::Fill(byte, 1);
        assert(payload@ =~= seq![byte]);
        self.sending(payload)
    }

    /// Sends all that waits and then a text, and waits until it has left the
    /// line.
    pub fn print_blocking<'a>(&self, s: &'a str) -> (job: Job<'a>)
        ensures
            job.wf(),
            job@.written == 0,
            job@.steps == seq![Step::Drain, Step::Settle, Step::Send(s.spec_bytes()), Step::Settle],
            blocking(job@.steps),
            plan(self@, job@.steps) == flush_plan(self@) + send_plan(self@, s.spec_bytes()),
            outcome(self@, job@.steps) == (State {
                tx: Seq::empty(),
                drain_pending: false,
                ..self@
            }),
    {
        self.write_all_blocking(s.as_bytes())
    }

    /// Sends all that waits, then a text, then a line end, and waits after
    /// each until it has left the line.
    pub fn println_blocking<'a>(&self, s: &'a str) -> (job: Job<'a>)
        ensures
            job.wf(),
            job@.written == 0,
            job@.steps == seq![
                Step::Drain,
                Step::Settle,
                Step::Send(s.spec_bytes()),
                Step::Settle,
                Step::Drain,
                Step::Settle,
                Step::Send(seq![13u8, 10u8]),
                Step::Settle,
            ],
            blocking(job@.steps),
            plan(self@, job@.steps) == flush_plan(self@) + send_plan(self@, s.spec_bytes())
                + send_plan(self@, newline()),
            outcome(self@, job@.steps) == (State {
                tx: Seq::empty(),
                drain_pending: false,
                ..self@
            }),
    {
        let text = s.as_bytes();
        let end = line_end();
        let stages = [
            Stage::Drain,
            Stage::Settle,
            Stage::Send(Payload::Bytes(text)),
            Stage::Settle,
            Stage::Drain,
            Stage::Settle,
            Stage::Send(Payload::Bytes(end)),
            Stage::Settle,
        ];
        proof {
            let steps = send_steps(s.spec_bytes()) + send_steps(newline());
            assert(Seq::new(8, |i: int| stages@[i]@) =~= steps);
            assert(steps =~= seq![
                Step::Drain,
                Step::Settle,
                Step::Send(s.spec_bytes()),
                Step::Settle,
                Step::Drain,
                Step::Settle,
                Step::Send(seq![13u8, 10u8]),
                Step::Settle,
            ]);
            lemma_queue_len(steps);
            law_line_in_order(self@, s.spec_bytes());
        }
        Job::new(stages, 8, 0)
    }

    /// Sends all that waits and then one byte `count` times, and waits until
    /// it has left the line.
    pub fn write_repeated_blocking<'a>(&self, byte: u8, count: usize) -> (job: Job<'a>)
        ensures
            job.wf(),
            job@.written == 0,
            job@.steps == seq![Step::Drain, Step::Settle, Step::Send(Seq::new(count as nat, |i: int| byte)), Step::Settle],
            blocking(job@.steps),
            plan(self@, job@.steps) == flush_plan(self@) + send_plan(
                self@,
                Seq::new(count as nat, |i: int| byte),
            ),
            outcome(self@, job@.steps) == (State {
                tx: Seq::empty(),
                drain_pending: false,
                ..self@
            }),
    {
        let payload = Payload::Fill(byte, count);
        assert(payload@ =~= Seq::new(count as nat, |i: int| byte));
        self.sending(payload)
    }

    /// Sends one fragment of formatted text. Formatted output comes in
    /// fragments; each is sent after all that waits, and has left the line
    /// before the next begins.
    pub fn fmt_write_blocking<'a>(&self, fragment: &'a str) -> (job: Job<'a>)
        ensures
            job.wf(),
            job@.written == 0,
            job@.steps == seq![Step::Drain, Step::Settle, Step::Send(fragment.spec_bytes()), Step::Settle],
            blocking(job@.steps),
            plan(self@, job@.steps) == flush_plan(self@) + send_plan(
                self@,
                fragment.spec_bytes(),
            ),
            outcome(self@, job@.steps) == (State {
                tx: Seq::empty(),
                drain_pending: false,
                ..self@
            }),
    {
        self.write_all_blocking(fragment.as_bytes())
    }

    // ---- Receiving ----

    /// Reads without waiting: empties the receive FIFO, then moves received
    /// bytes to `buf`, oldest first, and returns how many.
    pub fn read(&mut self, event: Event, buf: &mut [u8]) -> (result: Reception<usize>)
        requires
            old(self).wf(),
        ensures
            final(self).wf(),
            final(buf)@.len() == old(buf)@.len(),
            match event {
                Event::RxWord(word) => {
                    &&& result is NextWord
                    &&& final(self)@ == old(self)@.receive(word)
                    &&& final(buf)@ == old(buf)@
                },
                Event::RxEmpty => {
                    let n = if old(buf)@.len() <= old(self)@.rx.len() {
                        old(buf)@.len()
                    } else {
                        old(self)@.rx.len()
                    };
                    &&& result matches Reception::Done(count) && count == n
                    &&& final(self)@ == old(self)@.take(n)
                    &&& final(self)@ == (State { rx: old(self)@.rx.skip(n as int), ..old(self)@ })
                    &&& final(buf)@ == old(self)@.rx.take(n as int) + old(buf)@.skip(n as int)
                },
                _ => {
                    &&& result is NextWord
                    &&& final(self)@ == old(self)@
                    &&& final(buf)@ == old(buf)@
                },
            },
    {
        match event {
            Event::RxWord(word) => {
                self.pump_rx(word);
                Reception::NextWord
            },
            Event::RxEmpty => {
                let mut n: usize = 0;
                assert(self@.rx.skip(0) =~= self@.rx);
                while n < buf.len()
                    invariant
                        event is RxEmpty,
                        n <= buf@.len(),
                        buf@.len() == old(buf)@.len(),
                        n <= old(self)@.rx.len(),
                        old(self).wf(),
                        self.wf(),
                        self@ == old(self)@.take(n as nat),
                        buf@ =~= old(self)@.rx.take(n as int) + old(buf)@.skip(n as int),
                    decreases buf@.len() - n,
                {
                    match self.rx_buf.dequeue() {
                        Some(byte) => {
                            buf[n] = byte;
                            n = n + 1;
                            assert(self@.rx =~= old(self)@.rx.skip(n as int));
                        },
                        None => {
                            return Reception::Done(n);
                        },
                    }
                }
                Reception::Done(n)
            },
            _ => Reception::NextWord,
        }
    }

    /// Reads one byte without waiting: empties the receive FIFO, then takes
    /// the oldest received byte, if there is one.
    pub fn read_byte(&mut self, event: Event) -> (result: Reception<Option<u8>>)
        requires
            old(self).wf(),
        ensures
            final(self).wf(),
            match event {
                Event::RxWord(word) => result is NextWord && final(self)@ == old(self)@.receive(
                    word,
                ),
                Event::RxEmpty => if old(self)@.rx.len() == 0 {
                    result == Reception::Done(None::<u8>) && final(self)@ == old(self)@
                } else {
                    result == Reception::Done(Some(old(self)@.rx[0])) && final(self)@
                        == old(self)@.take(1) && final(self)@ == (State {
                        rx: old(self)@.rx.skip(1),
                        ..old(self)@
                    })
                },
                _ => result is NextWord && final(self)@ == old(self)@,
            },
    {
        match event {
            Event::RxWord(word) => {
                self.pump_rx(word);
                Reception::NextWord
            },
            Event::RxEmpty => Reception::Done(self.rx_buf.dequeue()),
            _ => Reception::NextWord,
        }
    }

    /// Reads one byte and waits for it: empties the receive FIFO and takes
    /// the oldest received byte, again and again until there is one.
    pub fn read_byte_blocking(&mut self, event: Event) -> (result: Reception<u8>)
        requires
            old(self).wf(),
        ensures
            final(self).wf(),
            (final(self)@, result) == await_byte(old(self)@, event),
            event matches Event::RxWord(word) ==> final(self)@ == old(self)@.receive(word),
            !(event is RxWord) ==> match result {
                Reception::Done(byte) => seq![byte] + final(self)@.rx == old(self)@.rx,
                _ => final(self)@.rx == old(self)@.rx,
            },
            !(event is RxWord) ==> final(self)@ == (State { rx: final(self)@.rx, ..old(self)@ }),
            event is RxEmpty ==> (result is Done <==> old(self)@.rx.len() > 0),
            event is RxEmpty ==> (result is Spin <==> old(self)@.rx.len() == 0),
            !(event is RxEmpty) ==> result is NextWord,
    {
        proof {
            law_awaited_byte(self@, event);
        }
        match self.read_byte(event) {
            Reception::Done(Some(byte)) => Reception::Done(byte),
            Reception::Done(None) => Reception::Spin,
            _ => Reception::NextWord,
        }
    }

    /// Reads as many bytes as `buf` holds and waits for them, one after the
    /// other. `filled` says how many are there, at first none.
    pub fn read_exact_blocking(
        &mut self,
        event: Event,
        buf: &mut [u8],
        filled: &mut usize,
    ) -> (result: Reception<()>)
        requires
            old(self).wf(),
            *old(filled) <= old(buf)@.len(),
        ensures
            final(self).wf(),
            *final(filled) <= final(buf)@.len() == old(buf)@.len(),
            result is Done ==> *final(filled) == final(buf)@.len(),
            (Filling { state: final(self)@, buf: final(buf)@, filled: *final(filled) as nat }, result)
                == fill(
                Filling { state: old(self)@, buf: old(buf)@, filled: *old(filled) as nat },
                event,
            ),
            ({
                let a = *old(filled) as int;
                let b = *final(filled) as int;
                &&& a <= b <= a + 1
                &&& event matches Event::RxWord(word) ==> result is NextWord && b == a
                    && final(self)@ == old(self)@.receive(word)
                &&& !(event is RxWord) ==> final(buf)@.subrange(a, b) + final(self)@.rx
                    == old(self)@.rx
                &&& !(event is RxWord) ==> final(self)@ == (State {
                    rx: final(self)@.rx,
                    ..old(self)@
                })
                &&& final(buf)@.take(a) == old(buf)@.take(a)
                &&& final(buf)@.skip(b) == old(buf)@.skip(b)
                &&& !(event is RxWord) ==> (result is Done <==> b == final(buf)@.len())
                &&& event is RxEmpty ==> (b == a + 1 <==> a < old(buf)@.len()
                    && old(self)@.rx.len() > 0)
                &&& result is Spin <==> event is RxEmpty && a < old(buf)@.len()
                    && old(self)@.rx.len() == 0
            }),
    {
        proof {
            law_filling_step(
                Filling { state: self@, buf: buf@, filled: *filled as nat },
                event,
            );
        }
        if let Event::RxWord(word) = event {
            self.pump_rx(word);
            return Reception::NextWord;
        }
        if *filled == buf.len() {
            return Reception::Done(());
        }
        match self.read_byte_blocking(event) {
            Reception::Done(byte) => {
                buf[*filled] = byte;
                *filled = *filled + 1;
                if *filled == buf.len() {
                    Reception::Done(())
                } else {
                    Reception::NextWord
                }
            },
            Reception::Spin => Reception::Spin,
            Reception::NextWord => Reception::NextWord,
        }
    }
}

/// The line end.
fn line_end() -> (bytes: &'static [u8])
    ensures
        bytes@ == newline(),
{
    let s = "\r\n";
    proof {
        reveal_strlit("\r\n");
        vstd::string::is_ascii_spec_bytes(s);
        assert(s.spec_bytes() =~= newline());
    }
    s.as_bytes()
}

} // verus!
