//! What holds of bytes that go out, and of the waits behind them.
use super::{
    answered, law_blocking_job_completes, law_blocking_run, law_line_in_order, law_send_in_order,
    law_write_needs_room, lemma_flush_run, lemma_run_push, room_events, smaller, times_full,
};
use crate::clock::law_char_cycles_bounds;
use crate::model::{
    advance, blocking, effects, flush_plan, newline, outcome, plan, run, send_plan, send_steps, sent,
    writes, Action, Event, Program, State, Step,
};
use vstd::prelude::*;

verus! {

/// The wait for some characters is as long as they take on the line at the
/// baud rate: a character has ten bits, each takes the clock divided by the
/// baud rate, and the cycles of one character, rounded down but at least one,
/// are taken as often as there are characters, at least once. A wait that a
/// `u32` cannot hold is the longest that it can.
pub proof fn law_wait_lasts_as_long_as_the_characters(s: State, chars: u32)
    requires
        s.inv(),
    ensures
        ({
            let exact = (s.clock_hz * 10) / (s.config.baud as int);
            let per_char = if exact < 1 { 1 } else { exact };
            let count = if chars < 1 { 1 } else { chars as int };
            s.cycles(chars) == if per_char * count > u32::MAX {
                u32::MAX as int
            } else {
                per_char * count
            }
        }),
        ({
            let exact = (s.clock_hz * 10) / (s.config.baud as int);
            chars >= 1 && exact >= 1 && exact * chars <= u32::MAX ==> s.cycles(chars) == exact
                * chars
        }),
        s.cycles(chars) < u32::MAX ==> s.clock_hz * 10 * chars < s.config.baud * (s.cycles(chars)
            + chars) || chars == 0,
{
    law_char_cycles_bounds(s.clock_hz, 10, s.config.baud);
    let exact = (s.clock_hz * 10) / (s.config.baud as int);
    let per_char = if exact < 1 { 1 } else { exact };
    let count = if chars < 1 { 1 } else { chars as int };
    let d = s.char_delay_cycles as int;
    assert(d == if per_char > u32::MAX { u32::MAX as int } else { per_char });
    if per_char > u32::MAX {
        assert(per_char * count > u32::MAX && d * count >= u32::MAX) by (nonlinear_arith)
            requires
                per_char > u32::MAX,
                d == u32::MAX,
                count >= 1,
        ;
    }
    if chars >= 1 && s.cycles(chars) < u32::MAX {
        let n = s.clock_hz * 10;
        let b = s.config.baud as int;
        let c = s.cycles(chars) as int;
        assert(d < u32::MAX) by (nonlinear_arith)
            requires
                d * count < u32::MAX,
                count >= 1,
                0 <= d,
        ;
        assert(n * count < b * (c + count)) by (nonlinear_arith)
            requires
                n < (d + 1) * b,
                c == d * count,
                count >= 1,
        ;
    }
}

/// Every wait that a job asks for is that of `tx_pipeline_chars` characters at
/// the baud rate, and of one where that is zero.
pub proof fn law_every_wait(s: State, job: Program, event: Event)
    requires
        s.inv(),
    ensures
        advance(s, job, event).2 matches Action::Delay(cycles) ==> ({
            let exact = (s.clock_hz * 10) / (s.config.baud as int);
            let per_char = if exact < 1 { 1 } else { exact };
            let count = if s.config.tx_pipeline_chars < 1 {
                1
            } else {
                s.config.tx_pipeline_chars as int
            };
            cycles == if per_char * count > u32::MAX {
                u32::MAX as int
            } else {
                per_char * count
            }
        }),
    decreases job.steps.len(),
{
    law_wait_lasts_as_long_as_the_characters(s, s.config.tx_pipeline_chars);
    if job.steps.len() > 0 {
        law_every_wait(s, job.rest(), Event::Continue);
        if let Step::Queue(data) = job.steps[0] {
            law_every_wait(
                s.offer(data),
                Program { written: job.written + s.accepts(data.len()), ..job.rest() },
                Event::Continue,
            );
        }
    }
}

/// A word that goes into the transmit FIFO is a byte of the job, value for
/// value, and it is gone from where it came: it was the oldest that waited in
/// the transmit buffer, or the first that the job had left to send past it.
/// Nothing else changes but the mark that something was sent.
pub proof fn law_written_word(s: State, job: Program, event: Event)
    ensures
        ({
            let (after, rest, action) = advance(s, job, event);
            action matches Action::WriteTx(word) ==> {
                &&& event is TxRoom && job.steps.len() > 0 && rest.written == job.written
                &&& after == (State { tx: after.tx, drain_pending: true, ..s })
                &&& match job.steps[0] {
                    Step::Flush | Step::Drain => {
                        &&& s.tx.len() > 0 && word == s.tx[0]
                        &&& s.tx == seq![s.tx[0]] + after.tx
                        &&& rest == job
                    },
                    Step::Send(data) => {
                        &&& data.len() > 0 && word == data[0]
                        &&& after.tx == s.tx
                        &&& rest.steps.len() == job.steps.len()
                        &&& rest.steps[0] matches Step::Send(left) && data == seq![data[0]] + left
                        &&& rest.steps.drop_first() == job.steps.drop_first()
                    },
                    _ => false,
                }
            }
        }),
{
    law_write_needs_room(s, job, event);
    if job.steps.len() > 0 {
        law_write_needs_room(s, job.rest(), Event::Continue);
        let (after, rest, action) = advance(s, job, event);
        match job.steps[0] {
            Step::Queue(data) => {
                law_write_needs_room(
                    s.offer(data),
                    Program { written: job.written + s.accepts(data.len()), ..job.rest() },
                    Event::Continue,
                );
            },
            Step::Send(data) => {
                if action is WriteTx {
                    assert(data =~= seq![data[0]] + data.skip(1));
                    assert(rest.steps.drop_first() =~= job.steps.drop_first());
                }
            },
            _ => {
                if action is WriteTx {
                    assert(s.tx =~= seq![s.tx[0]] + after.tx);
                }
            },
        }
    }
}

/// A job asks for what its first stage needs, and goes on to the next stage
/// only when the first has nothing left or, where it does not wait, cannot go
/// on. Asking changes nothing. A job without stages is done and stays so, and
/// one that is done has no stages left.
pub proof fn law_job_asks_for_what_it_needs(s: State, job: Program, event: Event)
    ensures
        job.steps.len() == 0 ==> advance(s, job, event) == (s, job, Action::Done),
        advance(s, job, event).2 is Done ==> advance(s, job, event).1.steps.len() == 0,
        job.steps.len() > 0 ==> {
            let next = advance(
                s,
                Program { steps: job.steps.drop_first(), written: job.written },
                Event::Continue,
            );
            let (after, rest, action) = advance(s, job, event);
            match job.steps[0] {
                Step::Pump => match event {
                    Event::RxWord(word) => after == s.receive(word) && rest == job && action
                        == Action::ReadRx,
                    Event::RxEmpty => (after, rest, action) == next,
                    _ => (after, rest, action) == (s, job, Action::ReadRx),
                },
                Step::Flush => match event {
                    Event::TxRoom => if s.tx.len() > 0 {
                        action is WriteTx
                    } else {
                        (after, rest, action) == next
                    },
                    Event::TxFull => (after, rest, action) == next,
                    _ => (after, rest, action) == (s, job, Action::TestTx),
                },
                Step::Drain => match event {
                    _ if s.tx.len() == 0 => (after, rest, action) == next,
                    Event::TxRoom => action is WriteTx,
                    Event::TxFull => (after, rest, action) == (s, job, Action::Spin),
                    _ => (after, rest, action) == (s, job, Action::TestTx),
                },
                Step::Send(data) => match event {
                    _ if data.len() == 0 => (after, rest, action) == next,
                    Event::TxRoom => action is WriteTx,
                    Event::TxFull => (after, rest, action) == (s, job, Action::Spin),
                    _ => (after, rest, action) == (s, job, Action::TestTx),
                },
                Step::Settle => if s.drain_pending {
                    &&& action is Delay
                    &&& after == (State { drain_pending: false, ..s })
                    &&& rest.steps == job.steps.drop_first() && rest.written == job.written
                } else {
                    (after, rest, action) == next
                },
                Step::Queue(data) => (after, rest, action) == advance(
                    s.offer(data),
                    Program {
                        steps: job.steps.drop_first(),
                        written: job.written + s.accepts(data.len()),
                    },
                    Event::Continue,
                ),
            }
        },
    decreases job.steps.len(),
{
    if job.steps.len() > 0 {
        law_job_asks_for_what_it_needs(s, job.rest(), Event::Continue);
        if let Step::Queue(data) = job.steps[0] {
            law_job_asks_for_what_it_needs(
                s.offer(data),
                Program { written: job.written + s.accepts(data.len()), ..job.rest() },
                Event::Continue,
            );
        }
    }
}

/// `sent` of actions one after the other.
proof fn lemma_sent_sequence(first: Seq<Action>, second: Seq<Action>)
    ensures
        sent(first + second) == sent(first) + sent(second),
    decreases second.len(),
{
    if second.len() == 0 {
        assert(first + second =~= first);
        assert(sent(first) + sent(second) =~= sent(first));
    } else {
        lemma_sent_sequence(first, second.drop_last());
        assert((first + second).drop_last() =~= first + second.drop_last());
        assert(sent(first + second) =~= sent(first) + sent(second));
    }
}

/// What is sent is among the effects.
proof fn lemma_sent_effects(actions: Seq<Action>)
    ensures
        sent(effects(actions)) == sent(actions),
    decreases actions.len(),
{
    if actions.len() > 0 {
        let before = effects(actions.drop_last());
        let last = actions.last();
        lemma_sent_effects(actions.drop_last());
        assert(before.push(last).drop_last() =~= before);
    }
}

/// Bytes that are put into the transmit FIFO are sent.
proof fn lemma_sent_writes(bytes: Seq<u8>)
    ensures
        sent(writes(bytes)) == bytes,
    decreases bytes.len(),
{
    if bytes.len() == 0 {
        assert(sent(writes(bytes)) =~= bytes);
    } else {
        lemma_sent_writes(bytes.drop_last());
        assert(writes(bytes).drop_last() =~= writes(bytes.drop_last()));
        assert(sent(writes(bytes)) =~= bytes);
    }
}

/// What sending all that waits, or some bytes, comes to.
proof fn lemma_sent_plans(s: State, data: Seq<u8>)
    ensures
        sent(flush_plan(s)) == s.tx,
        sent(send_plan(s, data)) == data,
{
    reveal_with_fuel(sent, 2);
    let wait = seq![s.silence()];
    assert(wait.drop_last() =~= Seq::<Action>::empty());
    lemma_sent_writes(s.tx);
    lemma_sent_writes(data);
    lemma_sent_sequence(writes(s.tx), wait);
    lemma_sent_sequence(writes(data), wait);
    assert(writes(s.tx) + Seq::<Action>::empty() =~= writes(s.tx));
    assert(writes(data) + Seq::<Action>::empty() =~= writes(data));
    assert(s.tx + Seq::<u8>::empty() =~= s.tx);
    assert(data + Seq::<u8>::empty() =~= data);
}

/// What a blocking job has sent is the beginning of what its plan sends, and
/// all of it once the job is done.
proof fn lemma_sent_by_plan(s: State, job: Program, events: Seq<Event>)
    requires
        blocking(job.steps),
    ensures
        ({
            let r = run(s, job, events);
            &&& sent(r.actions).is_prefix_of(sent(plan(s, job.steps)))
            &&& events.len() > 0 && r.actions.last() is Done ==> sent(r.actions) == sent(
                plan(s, job.steps),
            )
        }),
{
    let r = run(s, job, events);
    law_blocking_run(s, job, events);
    lemma_sent_effects(r.actions);
    lemma_sent_sequence(effects(r.actions), plan(r.state, r.job.steps));
    let all = sent(r.actions) + sent(plan(r.state, r.job.steps));
    assert(sent(r.actions) =~= all.subrange(0, sent(r.actions).len() as int));
}

/// Flushing sends all that waits, value for value and oldest first, and then
/// waits for the line, unless nothing was sent since the last wait. Whatever
/// the hardware answers, nothing else goes into the transmit FIFO on the way,
/// and at the end nothing else has changed.
pub proof fn law_flush_sends_what_waits(s: State, events: Seq<Event>)
    ensures
        ({
            let job = Program { steps: seq![Step::Drain, Step::Settle], written: 0 };
            let r = run(s, job, events);
            let e = effects(r.actions);
            let t = s.tx.len() as int;
            let w: int = if s.drain_pending || t > 0 { 1 } else { 0 };
            &&& sent(r.actions).is_prefix_of(s.tx)
            &&& events.len() > 0 && r.actions.last() is Done ==> {
                &&& sent(r.actions) == s.tx
                &&& e.len() == t + w
                &&& forall|i: int| 0 <= i < t ==> #[trigger] e[i] == Action::WriteTx(s.tx[i] as u32)
                &&& w == 1 ==> e[t] == Action::Delay(s.cycles(s.config.tx_pipeline_chars))
                &&& r.state == (State { tx: Seq::empty(), drain_pending: false, ..s })
            }
        }),
{
    let steps = seq![Step::Drain, Step::Settle];
    let job = Program { steps, written: 0 };
    reveal_with_fuel(plan, 3);
    reveal_with_fuel(outcome, 3);
    assert(steps.drop_first() =~= seq![Step::Settle]);
    assert(plan(s, steps) =~= flush_plan(s));
    lemma_sent_plans(s, Seq::empty());
    lemma_sent_by_plan(s, job, events);
    law_blocking_run(s, job, events);
}

/// Sending bytes past the transmit buffer sends all that waits and then the
/// bytes, value for value and in order, and waits for the line behind each of
/// the two that is not empty. Whatever the hardware answers, nothing else goes
/// into the transmit FIFO on the way, and at the end nothing waits and nothing
/// else has changed.
pub proof fn law_send_sends_its_bytes(s: State, data: Seq<u8>, events: Seq<Event>)
    ensures
        ({
            let job = Program {
                steps: seq![Step::Drain, Step::Settle, Step::Send(data), Step::Settle],
                written: 0,
            };
            let r = run(s, job, events);
            let e = effects(r.actions);
            let t = s.tx.len() as int;
            let n = data.len() as int;
            let w: int = if s.drain_pending || t > 0 { 1 } else { 0 };
            let v: int = if n > 0 { 1 } else { 0 };
            &&& sent(r.actions).is_prefix_of(s.tx + data)
            &&& events.len() > 0 && r.actions.last() is Done ==> {
                &&& sent(r.actions) == s.tx + data
                &&& e.len() == t + w + n + v
                &&& forall|i: int| 0 <= i < t ==> #[trigger] e[i] == Action::WriteTx(s.tx[i] as u32)
                &&& w == 1 ==> e[t] == Action::Delay(s.cycles(s.config.tx_pipeline_chars))
                &&& forall|i: int|
                    0 <= i < n ==> e[t + w + i] == Action::WriteTx(#[trigger] data[i] as u32)
                &&& v == 1 ==> e[t + w + n] == Action::Delay(
                    s.cycles(s.config.tx_pipeline_chars),
                )
                &&& r.state == (State { tx: Seq::empty(), drain_pending: false, ..s })
            }
        }),
{
    let job = Program { steps: send_steps(data), written: 0 };
    law_send_in_order(s, data);
    lemma_sent_plans(s, data);
    lemma_sent_sequence(flush_plan(s), send_plan(s, data));
    lemma_sent_by_plan(s, job, events);
    law_blocking_run(s, job, events);
}

/// Sending a line past the transmit buffer sends all that waits, then the text
/// and then carriage return and line feed, value for value and in order, and
/// waits for the line behind each of the three that is not empty. Whatever the
/// hardware answers, nothing else goes into the transmit FIFO on the way, and
/// at the end nothing waits and nothing else has changed.
pub proof fn law_line_sends_its_bytes(s: State, text: Seq<u8>, events: Seq<Event>)
    ensures
        ({
            let end = seq![13u8, 10u8];
            let job = Program {
                steps: seq![
                    Step::Drain,
                    Step::Settle,
                    Step::Send(text),
                    Step::Settle,
                    Step::Drain,
                    Step::Settle,
                    Step::Send(end),
                    Step::Settle,
                ],
                written: 0,
            };
            let r = run(s, job, events);
            let e = effects(r.actions);
            let t = s.tx.len() as int;
            let n = text.len() as int;
            let w: int = if s.drain_pending || t > 0 { 1 } else { 0 };
            let v: int = if n > 0 { 1 } else { 0 };
            let wait = Action::Delay(s.cycles(s.config.tx_pipeline_chars));
            &&& sent(r.actions).is_prefix_of(s.tx + text + end)
            &&& events.len() > 0 && r.actions.last() is Done ==> {
                &&& sent(r.actions) == s.tx + text + end
                &&& e.len() == t + w + n + v + 3
                &&& forall|i: int| 0 <= i < t ==> #[trigger] e[i] == Action::WriteTx(s.tx[i] as u32)
                &&& w == 1 ==> e[t] == wait
                &&& forall|i: int|
                    0 <= i < n ==> e[t + w + i] == Action::WriteTx(#[trigger] text[i] as u32)
                &&& v == 1 ==> e[t + w + n] == wait
                &&& e[t + w + n + v] == Action::WriteTx(13)
                &&& e[t + w + n + v + 1] == Action::WriteTx(10)
                &&& e[t + w + n + v + 2] == wait
                &&& r.state == (State { tx: Seq::empty(), drain_pending: false, ..s })
            }
        }),
{
    let end = newline();
    let steps = seq![
        Step::Drain,
        Step::Settle,
        Step::Send(text),
        Step::Settle,
        Step::Drain,
        Step::Settle,
        Step::Send(end),
        Step::Settle,
    ];
    let job = Program { steps, written: 0 };
    assert(steps =~= send_steps(text) + send_steps(end));
    law_line_in_order(s, text);
    lemma_sent_plans(s, text);
    lemma_sent_plans(s, end);
    lemma_sent_sequence(flush_plan(s), send_plan(s, text));
    lemma_sent_sequence(flush_plan(s) + send_plan(s, text), send_plan(s, end));
    lemma_sent_by_plan(s, job, events);
    law_blocking_run(s, job, events);
}

/// Sending bytes past the transmit buffer comes to an end, however often the
/// transmit FIFO is full on the way: it is done after two resumptions for each
/// byte, four for the two waits, two for each time that the FIFO was full, and
/// one more.
pub proof fn law_send_completes(s: State, data: Seq<u8>, events: Seq<Event>)
    requires
        answered(
            s,
            Program {
                steps: seq![Step::Drain, Step::Settle, Step::Send(data), Step::Settle],
                written: 0,
            },
            events,
        ),
        events.len() >= 2 * (s.tx.len() + data.len()) + 2 * times_full(events) + 5,
    ensures
        run(
            s,
            Program {
                steps: seq![Step::Drain, Step::Settle, Step::Send(data), Step::Settle],
                written: 0,
            },
            events,
        ).actions.last() is Done,
{
    let job = Program { steps: send_steps(data), written: 0 };
    law_send_in_order(s, data);
    law_blocking_job_completes(s, job, events);
}

/// Flushing comes to an end in the same way.
pub proof fn law_flush_completes(s: State, events: Seq<Event>)
    requires
        answered(s, Program { steps: seq![Step::Drain, Step::Settle], written: 0 }, events),
        events.len() >= 2 * s.tx.len() + 2 * times_full(events) + 3,
    ensures
        run(
            s,
            Program { steps: seq![Step::Drain, Step::Settle], written: 0 },
            events,
        ).actions.last() is Done,
{
    let steps = seq![Step::Drain, Step::Settle];
    reveal_with_fuel(plan, 3);
    assert(steps.drop_first() =~= seq![Step::Settle]);
    assert(plan(s, steps) =~= flush_plan(s));
    law_blocking_job_completes(s, Program { steps, written: 0 }, events);
}

/// An action that puts nothing into the transmit FIFO sends nothing.
proof fn lemma_sent_nothing(action: Action)
    requires
        !(action is WriteTx),
    ensures
        sent(seq![action]) == Seq::<u8>::empty(),
{
    reveal_with_fuel(sent, 2);
    assert(seq![action].drop_last() =~= Seq::<Action>::empty());
}

/// Filling the transmit FIFO uses all its room: where it has room for `room`
/// words, as many of the bytes that wait have gone into it, oldest first, and
/// the rest still wait. Nothing else changes but the mark that something was
/// sent, and the job is done.
pub proof fn law_flush_uses_all_room(s: State, written: nat, room: nat)
    ensures
        ({
            let waiting = s.tx.len();
            let k = if room <= waiting { room } else { waiting };
            let last = if room > waiting { Event::TxRoom } else { Event::TxFull };
            let events = (seq![Event::Continue] + room_events(k)).push(last);
            let r = run(s, Program { steps: seq![Step::Flush], written }, events);
            &&& r.actions.last() is Done
            &&& sent(r.actions) == s.tx.take(k as int)
            &&& r.state == (State {
                tx: s.tx.skip(k as int),
                drain_pending: s.drain_pending || k > 0,
                ..s
            })
            &&& r.job.written == written
        }),
{
    let job = Program { steps: seq![Step::Flush], written };
    let k = smaller(room, s.tx.len());
    let last = if room > s.tx.len() { Event::TxRoom } else { Event::TxFull };
    let start = Seq::<Event>::empty().push(Event::Continue);
    assert(start =~= seq![Event::Continue]);
    lemma_sent_nothing(Action::TestTx);
    lemma_sent_nothing(Action::Done);
    lemma_run_push(s, job, Seq::empty(), Event::Continue);
    law_job_asks_for_what_it_needs(s, job, Event::Continue);
    let begun = run(s, job, start);
    assert(begun.state == s && begun.job == job);
    assert(sent(begun.actions) =~= Seq::<u8>::empty());
    lemma_flush_run(s, job, start, k);
    let filled = run(s, job, start + room_events(k));
    lemma_run_push(s, job, start + room_events(k), last);
    law_job_asks_for_what_it_needs(filled.state, job, last);
    let empty = Program { steps: job.steps.drop_first(), written };
    assert(empty.steps.len() == 0);
    law_job_asks_for_what_it_needs(filled.state, empty, Event::Continue);
    let r = run(s, job, (start + room_events(k)).push(last));
    assert(sent(r.actions) =~= s.tx.take(k as int));
}

} // verus!
