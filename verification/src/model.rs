//! What a UART is and does, without the machinery.
use crate::clock::{at_least_one, at_most_u32, char_cycles};
use crate::config::UartConfig;
use crate::wire::decoded;
use vstd::prelude::*;

verus! {

/// What the driver of the hardware has to do next.
#[derive(Debug, Clone, Copy, PartialEq, Eq, Structural)]
pub enum Action {
    /// Take a word from the receive FIFO and answer `RxWord`, or `RxEmpty`
    /// where there is none.
    ReadRx,
    /// Look whether the transmit FIFO is full and answer `TxFull` or `TxRoom`.
    TestTx,
    /// Put the word into the transmit FIFO.
    WriteTx(u32),
    /// Wait for that many system clock cycles.
    Delay(u32),
    /// Give the hardware a moment.
    Spin,
    /// Nothing: the job is finished.
    Done,
}

/// What the driver of the hardware has to say.
#[derive(Debug, Clone, Copy, PartialEq, Eq, Structural)]
pub enum Event {
    /// Nothing: the job starts, or the last action had no answer.
    Continue,
    /// The receive FIFO gave this word.
    RxWord(u32),
    /// The receive FIFO was empty.
    RxEmpty,
    /// The transmit FIFO was not full.
    TxRoom,
    /// The transmit FIFO was full.
    TxFull,
}

/// What a reader needs next, or what it has read.
pub enum Reception<T> {
    /// Take a word from the receive FIFO and report it.
    NextWord,
    /// Give the hardware a moment, and come back.
    Spin,
    /// The outcome.
    Done(T),
}

/// The state of a UART.
pub struct State {
    pub config: UartConfig,
    pub clock_hz: u32,
    pub char_delay_cycles: u32,
    /// How many bytes the software buffers hold at most.
    pub tx_capacity: nat,
    pub rx_capacity: nat,
    /// The bytes that wait to be sent and to be read, oldest first.
    pub tx: Seq<u8>,
    pub rx: Seq<u8>,
    /// How often a byte to send, or a received byte, found its buffer full.
    pub dropped_tx: u32,
    pub dropped_rx: u32,
    /// Whether a word went into the transmit FIFO since the last wait for
    /// the line to fall silent.
    pub drain_pending: bool,
}

/// One more, and after the largest value zero.
pub open spec fn counted(x: u32) -> u32 {
    if x == u32::MAX {
        0
    } else {
        (x + 1) as u32
    }
}

impl State {
    /// What every operation keeps.
    pub open spec fn inv(self) -> bool {
        &&& self.tx.len() <= self.tx_capacity
        &&& self.rx.len() <= self.rx_capacity
        &&& self.clock_hz != 0
        &&& self.config.supported()
        &&& self.char_delay_cycles == char_cycles(
            self.clock_hz,
            self.config.frame_len() as u32,
            self.config.baud,
        )
    }

    /// How many of `n` bytes the transmit buffer takes.
    pub open spec fn accepts(self, n: nat) -> nat {
        if n <= self.tx_capacity - self.tx.len() {
            n
        } else {
            (self.tx_capacity - self.tx.len()) as nat
        }
    }

    /// The state after `data` was offered to the transmit buffer: it takes
    /// what it has room for, and the first byte that it has no room for ends
    /// the attempt and is counted.
    pub open spec fn offer(self, data: Seq<u8>) -> State {
        let n = self.accepts(data.len());
        State {
            tx: self.tx + data.take(n as int),
            dropped_tx: if n < data.len() {
                counted(self.dropped_tx)
            } else {
                self.dropped_tx
            },
            ..self
        }
    }

    /// The state after a byte was offered to the receive buffer.
    pub open spec fn store(self, byte: u8) -> State {
        if self.rx.len() < self.rx_capacity {
            State { rx: self.rx.push(byte), ..self }
        } else {
            State { dropped_rx: counted(self.dropped_rx), ..self }
        }
    }

    /// The state after a word came out of the receive FIFO: its byte is kept
    /// to be read, and sent back where echo is on.
    pub open spec fn receive(self, word: u32) -> State {
        let kept = self.store(decoded(word));
        if self.config.auto_echo {
            kept.offer(seq![decoded(word)])
        } else {
            kept
        }
    }

    /// The state after several words came out of the receive FIFO.
    pub open spec fn receive_all(self, words: Seq<u32>) -> State
        decreases words.len(),
    {
        if words.len() == 0 {
            self
        } else {
            self.receive_all(words.drop_last()).receive(words.last())
        }
    }

    /// The state after `n` bytes were taken out of the receive buffer.
    pub open spec fn take(self, n: nat) -> State {
        State { rx: self.rx.skip(n as int), ..self }
    }

    /// The state after the oldest waiting byte went into the transmit FIFO.
    pub open spec fn send_front(self) -> State {
        State { tx: self.tx.skip(1), drain_pending: true, ..self }
    }

    /// The state with the mark that a word went into the transmit FIFO.
    pub open spec fn sending(self) -> State {
        State { drain_pending: true, ..self }
    }

    /// The state after the line was waited for.
    pub open spec fn silent(self) -> State {
        State { drain_pending: false, ..self }
    }

    /// The cycles that `chars` characters take, at least one character and at
    /// most what a `u32` holds.
    pub open spec fn cycles(self, chars: u32) -> u32 {
        at_most_u32(self.char_delay_cycles * at_least_one(chars as int)) as u32
    }

    /// The wait after which nothing is left between the FIFO and the line.
    pub open spec fn silence(self) -> Action {
        Action::Delay(self.cycles(self.config.tx_pipeline_chars))
    }
}

/// One stage of a job.
pub enum Step {
    /// Empty the receive FIFO.
    Pump,
    /// Move waiting bytes to the transmit FIFO as long as it has room.
    Flush,
    /// Offer bytes to the transmit buffer.
    Queue(Seq<u8>),
    /// Move all waiting bytes to the transmit FIFO.
    Drain,
    /// Put bytes into the transmit FIFO, past the transmit buffer.
    Send(Seq<u8>),
    /// Wait for the line to fall silent, where something was sent.
    Settle,
}

/// What is left of a job, and how many bytes it got into the transmit buffer.
pub struct Program {
    pub steps: Seq<Step>,
    pub written: nat,
}

impl Program {
    /// What is left after the first stage.
    pub open spec fn rest(self) -> Program {
        Program { steps: self.steps.drop_first(), ..self }
    }
}

/// What a job does when the driver reports `event`: the state and the job
/// after it, and the action that the driver has to take.
///
/// A stage that has nothing to do, or is finished by `event`, hands over to
/// the next at once.
pub open spec fn advance(s: State, job: Program, event: Event) -> (State, Program, Action)
    decreases job.steps.len(),
{
    if job.steps.len() == 0 {
        (s, job, Action::Done)
    } else {
        match job.steps[0] {
            Step::Pump => match event {
                Event::RxWord(word) => (s.receive(word), job, Action::ReadRx),
                Event::RxEmpty => advance(s, job.rest(), Event::Continue),
                _ => (s, job, Action::ReadRx),
            },
            Step::Flush => match event {
                Event::TxFull => advance(s, job.rest(), Event::Continue),
                Event::TxRoom => if s.tx.len() == 0 {
                    advance(s, job.rest(), Event::Continue)
                } else {
                    (s.send_front(), job, Action::WriteTx(s.tx[0] as u32))
                },
                _ => (s, job, Action::TestTx),
            },
            Step::Queue(data) => advance(
                s.offer(data),
                Program { written: job.written + s.accepts(data.len()), ..job.rest() },
                Event::Continue,
            ),
            Step::Drain => if s.tx.len() == 0 {
                advance(s, job.rest(), Event::Continue)
            } else {
                match event {
                    Event::TxRoom => (s.send_front(), job, Action::WriteTx(s.tx[0] as u32)),
                    Event::TxFull => (s, job, Action::Spin),
                    _ => (s, job, Action::TestTx),
                }
            },
            Step::Send(data) => if data.len() == 0 {
                advance(s, job.rest(), Event::Continue)
            } else {
                match event {
                    Event::TxRoom => (
                        s.sending(),
                        Program { steps: job.steps.update(0, Step::Send(data.skip(1))), ..job },
                        Action::WriteTx(data[0] as u32),
                    ),
                    Event::TxFull => (s, job, Action::Spin),
                    _ => (s, job, Action::TestTx),
                }
            },
            Step::Settle => if s.drain_pending {
                (s.silent(), job.rest(), s.silence())
            } else {
                advance(s, job.rest(), Event::Continue)
            },
        }
    }
}

/// The line end that the printing operations send.
pub open spec fn newline() -> Seq<u8> {
    seq![13u8, 10u8]
}

/// Whether the stages wait for room in the transmit FIFO rather than give up.
pub open spec fn blocking(steps: Seq<Step>) -> bool {
    forall|i: int|
        0 <= i < steps.len() ==> (#[trigger] steps[i] is Drain || steps[i] is Send
            || steps[i] is Settle)
}

/// Each byte put into the transmit FIFO, in order.
pub open spec fn writes(bytes: Seq<u8>) -> Seq<Action> {
    Seq::new(bytes.len(), |i: int| Action::WriteTx(bytes[i] as u32))
}

/// A wait for the line to fall silent, where there is something to wait for.
pub open spec fn wait_if(s: State, needed: bool) -> Seq<Action> {
    if needed {
        seq![s.silence()]
    } else {
        Seq::empty()
    }
}

/// What sending all that waits comes to: every byte, oldest first, and then a
/// wait, unless nothing was sent since the last.
pub open spec fn flush_plan(s: State) -> Seq<Action> {
    writes(s.tx) + wait_if(s, s.drain_pending || s.tx.len() > 0)
}

/// What sending `data` on a silent line comes to: every byte in order, and
/// then a wait, unless there was nothing to send.
pub open spec fn send_plan(s: State, data: Seq<u8>) -> Seq<Action> {
    writes(data) + wait_if(s, data.len() > 0)
}

/// Everything that blocking stages will do to the hardware, in order, however
/// often they find the transmit FIFO full on the way.
pub open spec fn plan(s: State, steps: Seq<Step>) -> Seq<Action>
    decreases steps.len(),
{
    if steps.len() == 0 {
        Seq::empty()
    } else {
        let rest = steps.drop_first();
        match steps[0] {
            Step::Drain => writes(s.tx) + plan(
                State {
                    tx: Seq::empty(),
                    drain_pending: s.drain_pending || s.tx.len() > 0,
                    ..s
                },
                rest,
            ),
            Step::Send(data) => writes(data) + plan(
                State { drain_pending: s.drain_pending || data.len() > 0, ..s },
                rest,
            ),
            Step::Settle => wait_if(s, s.drain_pending) + plan(s.silent(), rest),
            _ => plan(s, rest),
        }
    }
}

/// The stages that send all that waits and then `data`.
pub open spec fn send_steps(data: Seq<u8>) -> Seq<Step> {
    seq![Step::Drain, Step::Settle, Step::Send(data), Step::Settle]
}

/// The state that blocking stages leave behind.
pub open spec fn outcome(s: State, steps: Seq<Step>) -> State
    decreases steps.len(),
{
    if steps.len() == 0 {
        s
    } else {
        let rest = steps.drop_first();
        match steps[0] {
            Step::Drain => outcome(
                State {
                    tx: Seq::empty(),
                    drain_pending: s.drain_pending || s.tx.len() > 0,
                    ..s
                },
                rest,
            ),
            Step::Send(data) => outcome(
                State { drain_pending: s.drain_pending || data.len() > 0, ..s },
                rest,
            ),
            Step::Settle => outcome(s.silent(), rest),
            _ => outcome(s, rest),
        }
    }
}

/// What a reader that waits for one byte does when the driver reports `event`:
/// it takes the oldest received byte once the receive FIFO is empty, and looks
/// again where there is none.
pub open spec fn await_byte(s: State, event: Event) -> (State, Reception<u8>) {
    match event {
        Event::RxWord(word) => (s.receive(word), Reception::NextWord),
        Event::RxEmpty => if s.rx.len() == 0 {
            (s, Reception::Spin)
        } else {
            (s.take(1), Reception::Done(s.rx[0]))
        },
        _ => (s, Reception::NextWord),
    }
}

/// A reader that waits until its buffer is full, and the UART it reads from.
pub struct Filling {
    pub state: State,
    pub buf: Seq<u8>,
    pub filled: nat,
}

/// What such a reader does when the driver reports `event`: it waits for one
/// byte after the other. A word that the receive FIFO gave is kept even when
/// the buffer is full.
pub open spec fn fill(reader: Filling, event: Event) -> (Filling, Reception<()>) {
    let (state, received) = await_byte(reader.state, event);
    if event is RxWord {
        (Filling { state, ..reader }, Reception::NextWord)
    } else if reader.filled == reader.buf.len() {
        (reader, Reception::Done(()))
    } else {
        match received {
            Reception::NextWord => (reader, Reception::NextWord),
            Reception::Spin => (reader, Reception::Spin),
            Reception::Done(byte) => (
                Filling {
                    state,
                    buf: reader.buf.update(reader.filled as int, byte),
                    filled: reader.filled + 1,
                },
                if reader.filled + 1 == reader.buf.len() {
                    Reception::Done(())
                } else {
                    Reception::NextWord
                },
            ),
        }
    }
}

/// A run of a job: where it has got and what the driver was told to do.
pub struct Run {
    pub state: State,
    pub job: Program,
    pub actions: Seq<Action>,
}

/// A job resumed with one event after the other.
pub open spec fn run(s: State, job: Program, events: Seq<Event>) -> Run
    decreases events.len(),
{
    if events.len() == 0 {
        Run { state: s, job, actions: Seq::empty() }
    } else {
        let before = run(s, job, events.drop_last());
        let (state, rest, action) = advance(before.state, before.job, events.last());
        Run { state, job: rest, actions: before.actions.push(action) }
    }
}

/// A reader resumed with one event after the other.
pub open spec fn fill_all(reader: Filling, events: Seq<Event>) -> Filling
    decreases events.len(),
{
    if events.len() == 0 {
        reader
    } else {
        fill(fill_all(reader, events.drop_last()), events.last()).0
    }
}

/// The actions that change something: words put into the FIFO, and waits.
pub open spec fn effects(actions: Seq<Action>) -> Seq<Action>
    decreases actions.len(),
{
    if actions.len() == 0 {
        actions
    } else {
        let before = effects(actions.drop_last());
        if actions.last() is WriteTx || actions.last() is Delay {
            before.push(actions.last())
        } else {
            before
        }
    }
}

/// The bytes that went into the transmit FIFO.
pub open spec fn sent(actions: Seq<Action>) -> Seq<u8>
    decreases actions.len(),
{
    if actions.len() == 0 {
        Seq::empty()
    } else {
        let before = sent(actions.drop_last());
        match actions.last() {
            Action::WriteTx(word) => before.push(word as u8),
            _ => before,
        }
    }
}

} // verus!
