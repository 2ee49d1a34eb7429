//! What holds of the UART as a whole, whatever the hardware answers.
use crate::config::{InitError, ServiceMode, UartConfig};
use crate::model::{
    advance, await_byte, blocking, effects, fill, fill_all, flush_plan, newline, outcome, plan, run,
    send_plan, send_steps, sent, writes, Action, Event, Filling, Program, Run, State, Step,
};
use crate::serial::{refusal, rx_machine, tx_machine, Installation};
use crate::wire::{decoded, law_sent_byte_is_received, looped};
use vstd::prelude::*;

pub mod bringup;
pub mod receiving;
pub mod sending;

verus! {

/// Blocking stages one after the other do what the first do and then what the
/// second do from where the first have left off.
pub proof fn law_blocking_sequence(s: State, first: Seq<Step>, second: Seq<Step>)
    ensures
        plan(s, first + second) == plan(s, first) + plan(outcome(s, first), second),
        outcome(s, first + second) == outcome(outcome(s, first), second),
    decreases first.len(),
{
    if first.len() == 0 {
        assert(first + second =~= second);
        assert(plan(s, first) + plan(s, second) =~= plan(s, second));
    } else {
        let rest = first.drop_first();
        assert((first + second).drop_first() =~= rest + second);
        let next = match first[0] {
            Step::Drain => State {
                tx: Seq::empty(),
                drain_pending: s.drain_pending || s.tx.len() > 0,
                ..s
            },
            Step::Send(data) => State {
                drain_pending: s.drain_pending || data.len() > 0,
                ..s
            },
            Step::Settle => s.silent(),
            _ => s,
        };
        law_blocking_sequence(next, rest, second);
        assert(plan(s, first + second) =~= plan(s, first) + plan(outcome(s, first), second));
    }
}

/// Sending `data` and waiting comes to sending all that waits, oldest first,
/// and waiting, and then sending `data`, in order, and waiting; it leaves
/// nothing waiting and the line silent.
pub proof fn law_send_in_order(s: State, data: Seq<u8>)
    ensures
        plan(s, send_steps(data)) == flush_plan(s) + send_plan(s, data),
        outcome(s, send_steps(data)) == (State { tx: Seq::empty(), drain_pending: false, ..s }),
{
    let steps = send_steps(data);
    reveal_with_fuel(plan, 5);
    reveal_with_fuel(outcome, 5);
    assert(steps.drop_first() =~= seq![Step::Settle, Step::Send(data), Step::Settle]);
    assert(steps.drop_first().drop_first() =~= seq![Step::Send(data), Step::Settle]);
    assert(steps.drop_first().drop_first().drop_first() =~= seq![Step::Settle]);
    assert(plan(s, steps) =~= flush_plan(s) + send_plan(s, data));
}

/// Where nothing waits and the line is silent, there is nothing to flush: what
/// follows a blocking send begins at once.
pub proof fn law_nothing_to_flush(s: State)
    requires
        s.tx.len() == 0,
        !s.drain_pending,
    ensures
        flush_plan(s) == Seq::<Action>::empty(),
{
    assert(flush_plan(s) =~= Seq::<Action>::empty());
}

/// Sending a line and waiting is sending the text and waiting, and then
/// sending the line end and waiting.
pub proof fn law_line_in_order(s: State, text: Seq<u8>)
    ensures
        plan(s, send_steps(text) + send_steps(newline())) == flush_plan(s) + send_plan(s, text)
            + send_plan(s, newline()),
        outcome(s, send_steps(text) + send_steps(newline())) == (State {
            tx: Seq::empty(),
            drain_pending: false,
            ..s
        }),
{
    let quiet = State { tx: Seq::empty(), drain_pending: false, ..s };
    law_send_in_order(s, text);
    law_send_in_order(quiet, newline());
    law_blocking_sequence(s, send_steps(text), send_steps(newline()));
    law_nothing_to_flush(quiet);
    assert(plan(s, send_steps(text) + send_steps(newline())) =~= flush_plan(s) + send_plan(s, text)
        + send_plan(s, newline()));
}

/// The stages that send one fragment after the other.
pub open spec fn fragment_steps(fragments: Seq<Seq<u8>>) -> Seq<Step>
    decreases fragments.len(),
{
    if fragments.len() == 0 {
        Seq::empty()
    } else {
        fragment_steps(fragments.drop_last()) + send_steps(fragments.last())
    }
}

/// Every fragment sent on a silent line, one after the other.
pub open spec fn fragment_plan(s: State, fragments: Seq<Seq<u8>>) -> Seq<Action>
    decreases fragments.len(),
{
    if fragments.len() == 0 {
        Seq::empty()
    } else {
        fragment_plan(s, fragments.drop_last()) + send_plan(s, fragments.last())
    }
}

/// Formatted text that comes in fragments is sent in order: first all that
/// waits, then each fragment, and each has left the line before the next
/// begins.
pub proof fn law_fragments_in_order(s: State, fragments: Seq<Seq<u8>>)
    requires
        fragments.len() > 0,
    ensures
        plan(s, fragment_steps(fragments)) == flush_plan(s) + fragment_plan(s, fragments),
        outcome(s, fragment_steps(fragments)) == (State {
            tx: Seq::empty(),
            drain_pending: false,
            ..s
        }),
    decreases fragments.len(),
{
    let quiet = State { tx: Seq::empty(), drain_pending: false, ..s };
    let front = fragments.drop_last();
    let last = fragments.last();
    law_blocking_sequence(s, fragment_steps(front), send_steps(last));
    law_nothing_to_flush(quiet);
    if front.len() == 0 {
        law_send_in_order(s, last);
        reveal_with_fuel(fragment_steps, 2);
        reveal_with_fuel(fragment_plan, 2);
        assert(fragment_steps(fragments) =~= send_steps(last));
        assert(fragment_plan(s, fragments) =~= send_plan(s, last));
    } else {
        law_fragments_in_order(s, front);
        law_send_in_order(quiet, last);
        assert(plan(s, fragment_steps(fragments)) =~= flush_plan(s) + fragment_plan(s, fragments));
    }
}

/// A job never changes the settings, and keeps everything in its bounds.
pub proof fn law_step_keeps_settings_and_bounds(s: State, job: Program, event: Event)
    requires
        s.inv(),
    ensures
        advance(s, job, event).0.inv(),
        advance(s, job, event).0.config == s.config,
        advance(s, job, event).0.clock_hz == s.clock_hz,
        advance(s, job, event).0.char_delay_cycles == s.char_delay_cycles,
        advance(s, job, event).0.tx_capacity == s.tx_capacity,
        advance(s, job, event).0.rx_capacity == s.rx_capacity,
    decreases job.steps.len(),
{
    if job.steps.len() > 0 {
        law_step_keeps_settings_and_bounds(s, job.rest(), Event::Continue);
        if let Step::Queue(data) = job.steps[0] {
            law_step_keeps_settings_and_bounds(
                s.offer(data),
                Program { written: job.written + s.accepts(data.len()), ..job.rest() },
                Event::Continue,
            );
        }
    }
}

/// The state with another service mode.
pub open spec fn served(s: State, mode: ServiceMode) -> State {
    State { config: UartConfig { service_mode: mode, ..s.config }, ..s }
}

/// Offering and receiving bytes is the same in either service mode.
proof fn lemma_served(s: State, mode: ServiceMode, data: Seq<u8>, word: u32)
    ensures
        served(s, mode).accepts(data.len()) == s.accepts(data.len()),
        served(s, mode).offer(data) == served(s.offer(data), mode),
        served(s, mode).receive(word) == served(s.receive(word), mode),
{
    let kept = s.store(decoded(word));
    let one = seq![decoded(word)];
    assert(served(s, mode).store(decoded(word)) == served(kept, mode));
    assert(served(kept, mode).offer(one) == served(kept.offer(one), mode));
}

/// A job does the same in either service mode.
proof fn lemma_served_job(s: State, mode: ServiceMode, job: Program, event: Event)
    ensures
        advance(served(s, mode), job, event) == (
            served(advance(s, job, event).0, mode),
            advance(s, job, event).1,
            advance(s, job, event).2,
        ),
    decreases job.steps.len(),
{
    if let Event::RxWord(word) = event {
        lemma_served(s, mode, Seq::empty(), word);
    }
    if job.steps.len() > 0 {
        let rest = job.rest();
        match job.steps[0] {
            Step::Queue(data) => {
                lemma_served(s, mode, data, 0);
                lemma_served_job(
                    s.offer(data),
                    mode,
                    Program { written: job.written + s.accepts(data.len()), ..rest },
                    Event::Continue,
                );
            },
            _ => {
                lemma_served_job(s, mode, rest, Event::Continue);
            },
        }
    }
}

/// Waiting for a byte is the same in either service mode.
proof fn lemma_served_byte(s: State, mode: ServiceMode, event: Event)
    ensures
        await_byte(served(s, mode), event) == (
            served(await_byte(s, event).0, mode),
            await_byte(s, event).1,
        ),
{
    if let Event::RxWord(word) = event {
        lemma_served(s, mode, Seq::empty(), word);
    }
}

/// The service mode is a note for the application: no job and no reader does
/// anything else because of it. A reader that does not wait takes `n` bytes from
/// the front of the receive buffer.
pub proof fn law_service_mode_changes_nothing(
    s: State,
    mode: ServiceMode,
    job: Program,
    reader: Filling,
    event: Event,
    n: nat,
)
    ensures
        advance(served(s, mode), job, event) == (
            served(advance(s, job, event).0, mode),
            advance(s, job, event).1,
            advance(s, job, event).2,
        ),
        await_byte(served(s, mode), event) == (
            served(await_byte(s, event).0, mode),
            await_byte(s, event).1,
        ),
        ({
            let (after, result) = fill(reader, event);
            fill(Filling { state: served(reader.state, mode), ..reader }, event) == (
                Filling { state: served(after.state, mode), ..after },
                result,
            )
        }),
        served(s, mode).rx == s.rx,
        served(s, mode).take(n) == served(s.take(n), mode),
{
    lemma_served_job(s, mode, job, event);
    lemma_served_byte(s, mode, event);
    lemma_served_byte(reader.state, mode, event);
}

/// A word goes into the transmit FIFO only in answer to the report that the
/// FIFO has room: no word is ever lost to a full FIFO.
pub proof fn law_write_needs_room(s: State, job: Program, event: Event)
    ensures
        advance(s, job, event).2 is WriteTx ==> event is TxRoom,
    decreases job.steps.len(),
{
    if job.steps.len() > 0 {
        law_write_needs_room(s, job.rest(), Event::Continue);
        if let Step::Queue(data) = job.steps[0] {
            law_write_needs_room(
                s.offer(data),
                Program { written: job.written + s.accepts(data.len()), ..job.rest() },
                Event::Continue,
            );
        }
    }
}

/// The mark that something was sent is set by every word that goes into the
/// transmit FIFO, and by nothing else; it is cleared by the wait for the line
/// to fall silent, and by nothing else.
pub proof fn law_drain_mark(s: State, job: Program, event: Event)
    ensures
        ({
            let (after, _, action) = advance(s, job, event);
            &&& action is WriteTx ==> after.drain_pending
            &&& action is Delay ==> s.drain_pending && !after.drain_pending && action
                == s.silence()
            &&& !(action is WriteTx) && !(action is Delay) ==> after.drain_pending
                == s.drain_pending
        }),
    decreases job.steps.len(),
{
    if job.steps.len() > 0 {
        law_drain_mark(s, job.rest(), Event::Continue);
        if let Step::Queue(data) = job.steps[0] {
            law_drain_mark(
                s.offer(data),
                Program { written: job.written + s.accepts(data.len()), ..job.rest() },
                Event::Continue,
            );
        }
    }
}

/// Jobs can be put together: a job with more stages behind it does the same,
/// and where it would be done, the stages behind it begin.
pub proof fn law_stages_in_sequence(s: State, job: Program, behind: Seq<Step>, event: Event)
    ensures
        ({
            let longer = Program { steps: job.steps + behind, ..job };
            let (after, rest, action) = advance(s, job, event);
            let rest_and_behind = Program { steps: rest.steps + behind, ..rest };
            if action is Done {
                &&& rest.steps.len() == 0
                &&& job.steps.len() > 0 ==> advance(s, longer, event) == advance(
                    after,
                    rest_and_behind,
                    Event::Continue,
                )
            } else {
                advance(s, longer, event) == (after, rest_and_behind, action)
            }
        }),
    decreases job.steps.len(),
{
    let longer = Program { steps: job.steps + behind, ..job };
    if job.steps.len() > 0 {
        assert(longer.steps[0] == job.steps[0]);
        let rest = job.rest();
        assert(longer.rest().steps =~= rest.steps + behind);
        law_stages_in_sequence(s, rest, behind, Event::Continue);
        if rest.steps.len() == 0 {
            assert(advance(s, rest, Event::Continue) == (s, rest, Action::Done));
        }
        match job.steps[0] {
            Step::Queue(data) => {
                let next = Program { written: job.written + s.accepts(data.len()), ..rest };
                law_stages_in_sequence(s.offer(data), next, behind, Event::Continue);
            },
            Step::Send(data) => {
                assert(longer.steps.update(0, Step::Send(data.skip(1))) =~= job.steps.update(
                    0,
                    Step::Send(data.skip(1)),
                ) + behind);
            },
            _ => {},
        }
    }
}

/// What is left of blocking stages after the first is still blocking.
pub(crate) proof fn lemma_blocking_rest(steps: Seq<Step>)
    requires
        blocking(steps),
        steps.len() > 0,
    ensures
        blocking(steps.drop_first()),
{
    assert forall|i: int| 0 <= i < steps.drop_first().len() implies (
    #[trigger] steps.drop_first()[i] is Drain || steps.drop_first()[i] is Send
        || steps.drop_first()[i] is Settle) by {
        assert(steps.drop_first()[i] == steps[i + 1]);
    }
}

/// One resumption of a blocking job either does the next thing in its plan or
/// changes nothing about what is left to do, and the job is done exactly when
/// nothing is left.
pub proof fn law_blocking_step(s: State, job: Program, event: Event)
    requires
        blocking(job.steps),
    ensures
        ({
            let (after, rest, action) = advance(s, job, event);
            &&& blocking(rest.steps)
            &&& effects(seq![action]) + plan(after, rest.steps) == plan(s, job.steps)
            &&& outcome(after, rest.steps) == outcome(s, job.steps)
            &&& action is Done <==> plan(s, job.steps).len() == 0
            &&& action is Done ==> after == outcome(s, job.steps) && rest.steps.len() == 0
        }),
    decreases job.steps.len(),
{
    reveal_with_fuel(effects, 2);
    let (after, rest, action) = advance(s, job, event);
    assert(seq![action].drop_last() =~= Seq::<Action>::empty());
    let all = plan(s, job.steps);
    if job.steps.len() == 0 {
        assert(effects(seq![action]) + plan(after, rest.steps) =~= all);
    } else {
        lemma_blocking_rest(job.steps);
        let next = job.rest();
        law_blocking_step(s, next, Event::Continue);
        let tail = plan(after, rest.steps);
        match job.steps[0] {
            Step::Drain => {
                if s.tx.len() == 0 {
                    assert(s.tx =~= Seq::empty());
                    assert(all =~= plan(s, next.steps));
                } else if event is TxRoom {
                    assert(writes(s.tx) =~= seq![action] + writes(s.tx.skip(1)));
                    assert(effects(seq![action]) =~= seq![action]);
                    assert(effects(seq![action]) + tail =~= all);
                } else {
                    assert(effects(seq![action]) + tail =~= all);
                    assert(all[0] == writes(s.tx)[0]);
                }
            },
            Step::Send(data) => {
                if data.len() == 0 {
                    assert(all =~= plan(s, next.steps));
                } else if event is TxRoom {
                    assert(rest.steps.drop_first() =~= next.steps);
                    assert(writes(data) =~= seq![action] + writes(data.skip(1)));
                    assert(effects(seq![action]) =~= seq![action]);
                    assert(effects(seq![action]) + tail =~= all);
                    assert forall|i: int| 0 <= i < rest.steps.len() implies (
                    #[trigger] rest.steps[i] is Drain || rest.steps[i] is Send
                        || rest.steps[i] is Settle) by {
                        assert(i > 0 ==> rest.steps[i] == job.steps[i]);
                    }
                } else {
                    assert(effects(seq![action]) + tail =~= all);
                    assert(all[0] == writes(data)[0]);
                }
            },
            Step::Settle => {
                if s.drain_pending {
                    assert(effects(seq![action]) =~= seq![action]);
                    assert(effects(seq![action]) + tail =~= all);
                } else {
                    assert(s.silent() == s);
                    assert(all =~= plan(s, next.steps));
                }
            },
            _ => {},
        }
    }
}

/// However the hardware answers, what a blocking job has done and what it has
/// left to do make up its plan, in order; when it is done, the plan is done,
/// nothing was done twice, and the state is the one that was promised.
pub proof fn law_blocking_run(s: State, job: Program, events: Seq<Event>)
    requires
        blocking(job.steps),
    ensures
        ({
            let r = run(s, job, events);
            &&& blocking(r.job.steps)
            &&& r.actions.len() == events.len()
            &&& effects(r.actions) + plan(r.state, r.job.steps) == plan(s, job.steps)
            &&& outcome(r.state, r.job.steps) == outcome(s, job.steps)
            &&& events.len() > 0 && r.actions.last() is Done ==> effects(r.actions) == plan(
                s,
                job.steps,
            ) && r.state == outcome(s, job.steps)
        }),
    decreases events.len(),
{
    let r = run(s, job, events);
    if events.len() == 0 {
        assert(effects(r.actions) + plan(s, job.steps) =~= plan(s, job.steps));
    } else {
        let before = run(s, job, events.drop_last());
        law_blocking_run(s, job, events.drop_last());
        law_blocking_step(before.state, before.job, events.last());
        let action = r.actions.last();
        assert(r.actions.drop_last() =~= before.actions);
        reveal_with_fuel(effects, 2);
        assert(seq![action].drop_last() =~= Seq::<Action>::empty());
        assert(effects(r.actions) =~= effects(before.actions) + effects(seq![action]));
        assert(effects(r.actions) + plan(r.state, r.job.steps) =~= effects(before.actions) + (
        effects(seq![action]) + plan(r.state, r.job.steps)));
        if action is Done {
            assert(effects(r.actions) =~= plan(s, job.steps));
        }
    }
}

/// How often the transmit FIFO was found full.
pub open spec fn times_full(events: Seq<Event>) -> nat
    decreases events.len(),
{
    if events.len() == 0 {
        0
    } else {
        times_full(events.drop_last()) + if events.last() is TxFull {
            1nat
        } else {
            0
        }
    }
}

/// Whether each look at the transmit FIFO was answered by how it was found.
pub open spec fn answered(s: State, job: Program, events: Seq<Event>) -> bool {
    forall|i: int|
        0 < i < events.len() && (#[trigger] run(s, job, events.take(i))).actions.last() is TestTx
            ==> events[i] is TxRoom || events[i] is TxFull
}

/// A blocking job that asks whether there is room puts a word into the FIFO
/// when there is.
pub proof fn law_room_is_used(s: State, job: Program, event: Event)
    requires
        blocking(job.steps),
        advance(s, job, event).2 is TestTx,
    ensures
        advance(advance(s, job, event).0, advance(s, job, event).1, Event::TxRoom).2 is WriteTx,
    decreases job.steps.len(),
{
    if job.steps.len() > 0 {
        lemma_blocking_rest(job.steps);
        if advance(s, job.rest(), Event::Continue).2 is TestTx {
            law_room_is_used(s, job.rest(), Event::Continue);
        }
    }
}

/// A blocking job spins only where the transmit FIFO was full, and does not
/// look at the receive FIFO.
proof fn lemma_spin_means_full(s: State, job: Program, event: Event)
    requires
        blocking(job.steps),
    ensures
        advance(s, job, event).2 is Spin ==> event is TxFull,
        !(advance(s, job, event).2 is ReadRx),
    decreases job.steps.len(),
{
    if job.steps.len() > 0 {
        lemma_blocking_rest(job.steps);
        lemma_spin_means_full(s, job.rest(), Event::Continue);
    }
}

/// How far a blocking job has got after some events.
proof fn lemma_blocking_progress(s: State, job: Program, events: Seq<Event>)
    requires
        blocking(job.steps),
        answered(s, job, events),
    ensures
        ({
            let r = run(s, job, events);
            let n = events.len();
            let looking = n > 0 && r.actions.last() is TestTx;
            &&& looking ==> advance(r.state, r.job, Event::TxRoom).2 is WriteTx
            &&& (n > 0 && r.actions.last() is Done) || 2 * plan(r.state, r.job.steps).len() + n
                <= 2 * plan(s, job.steps).len() + 2 * times_full(events) + (if looking {
                1int
            } else {
                0
            })
        }),
    decreases events.len(),
{
    if events.len() > 0 {
        let front = events.drop_last();
        let event = events.last();
        assert(events.take(front.len() as int) =~= front);
        assert forall|i: int|
            0 < i < front.len() && (#[trigger] run(s, job, front.take(i))).actions.last()
                is TestTx implies front[i] is TxRoom || front[i] is TxFull by {
            assert(front.take(i) =~= events.take(i));
        }
        lemma_blocking_progress(s, job, front);
        law_blocking_run(s, job, front);
        let before = run(s, job, front);
        let r = run(s, job, events);
        law_blocking_step(before.state, before.job, event);
        lemma_spin_means_full(before.state, before.job, event);
        if r.actions.last() is TestTx {
            law_room_is_used(before.state, before.job, event);
        }
        reveal_with_fuel(effects, 2);
        assert(seq![r.actions.last()].drop_last() =~= Seq::<Action>::empty());
        if front.len() > 0 && before.actions.last() is TestTx {
            assert(run(s, job, events.take(front.len() as int)).actions.last() is TestTx);
            assert(events[front.len() as int] is TxRoom || events[front.len() as int] is TxFull);
        }
    }
}

/// A blocking job comes to an end, however often the transmit FIFO is full on
/// the way: it is done after two resumptions for each thing in its plan, two
/// for each time that the FIFO was full, and one more.
pub proof fn law_blocking_job_completes(s: State, job: Program, events: Seq<Event>)
    requires
        blocking(job.steps),
        answered(s, job, events),
        events.len() >= 2 * plan(s, job.steps).len() + 2 * times_full(events) + 1,
    ensures
        run(s, job, events).actions.last() is Done,
        effects(run(s, job, events).actions) == plan(s, job.steps),
        run(s, job, events).state == outcome(s, job.steps),
{
    let r = run(s, job, events);
    lemma_blocking_progress(s, job, events);
    law_blocking_run(s, job, events);
    law_blocking_step(r.state, r.job, Event::TxRoom);
}

/// Whether the stages send only what waits in the transmit buffer.
pub open spec fn buffered(steps: Seq<Step>) -> bool {
    forall|i: int| 0 <= i < steps.len() ==> !(#[trigger] steps[i] is Send)
}

/// One resumption of a job that sends from the transmit buffer takes bytes
/// off its front only and adds bytes at its back only.
pub proof fn law_buffered_step(s: State, job: Program, event: Event)
    requires
        s.inv(),
        buffered(job.steps),
    ensures
        ({
            let (after, rest, action) = advance(s, job, event);
            &&& buffered(rest.steps)
            &&& s.tx.is_prefix_of(sent(seq![action]) + after.tx)
        }),
    decreases job.steps.len(),
{
    reveal_with_fuel(sent, 2);
    let (after, rest, action) = advance(s, job, event);
    assert(seq![action].drop_last() =~= Seq::<Action>::empty());
    if job.steps.len() > 0 {
        assert forall|i: int| 0 <= i < job.rest().steps.len() implies !(
        #[trigger] job.rest().steps[i] is Send) by {
            assert(job.rest().steps[i] == job.steps[i + 1]);
        }
        law_buffered_step(s, job.rest(), Event::Continue);
        if let Step::Queue(data) = job.steps[0] {
            let next = Program { written: job.written + s.accepts(data.len()), ..job.rest() };
            law_buffered_step(s.offer(data), next, Event::Continue);
            assert(s.tx.is_prefix_of(s.offer(data).tx));
            assert(s.tx =~= (sent(seq![action]) + after.tx).subrange(0, s.tx.len() as int));
        } else if action is WriteTx {
            law_write_needs_room(s, job.rest(), Event::Continue);
            assert(sent(seq![action]) =~= seq![s.tx[0]]);
            assert(sent(seq![action]) + after.tx =~= s.tx);
        } else if event is RxWord && job.steps[0] is Pump {
            assert(sent(seq![action]) + after.tx =~= after.tx);
            assert(s.tx =~= after.tx.subrange(0, s.tx.len() as int));
        } else if after == s {
            assert(sent(seq![action]) + after.tx =~= s.tx);
        }
    } else {
        assert(sent(seq![action]) + after.tx =~= s.tx);
    }
}

/// `sent` of one more action.
proof fn lemma_sent_push(actions: Seq<Action>, action: Action)
    ensures
        sent(actions.push(action)) == sent(actions) + sent(seq![action]),
{
    reveal_with_fuel(sent, 2);
    assert(actions.push(action).drop_last() =~= actions);
    assert(seq![action].drop_last() =~= Seq::<Action>::empty());
    assert(sent(actions.push(action)) =~= sent(actions) + sent(seq![action]));
}

/// However the hardware answers, the bytes that wait leave first and in the
/// order in which they were written, none lost and none twice; and the state
/// stays within its bounds.
pub proof fn law_waiting_bytes_leave_in_order(s: State, job: Program, events: Seq<Event>)
    requires
        s.inv(),
        buffered(job.steps),
    ensures
        ({
            let r = run(s, job, events);
            &&& r.state.inv()
            &&& buffered(r.job.steps)
            &&& s.tx.is_prefix_of(sent(r.actions) + r.state.tx)
        }),
    decreases events.len(),
{
    let r = run(s, job, events);
    if events.len() == 0 {
        assert(sent(r.actions) + r.state.tx =~= s.tx);
    } else {
        let before = run(s, job, events.drop_last());
        law_waiting_bytes_leave_in_order(s, job, events.drop_last());
        law_step_keeps_settings_and_bounds(before.state, before.job, events.last());
        law_buffered_step(before.state, before.job, events.last());
        let action = r.actions.last();
        lemma_sent_push(before.actions, action);
        let tail = sent(seq![action]) + r.state.tx;
        assert(sent(r.actions) + r.state.tx =~= sent(before.actions) + tail);
        let n = s.tx.len() as int;
        assert forall|i: int| 0 <= i < n implies s.tx[i] == (sent(before.actions) + tail)[i] by {
            assert(s.tx[i] == (sent(before.actions) + before.state.tx).subrange(0, n)[i]);
            if i >= sent(before.actions).len() {
                let j = i - sent(before.actions).len();
                assert(before.state.tx[j] == tail.subrange(0, before.state.tx.len() as int)[j]);
            }
        }
        assert(s.tx =~= (sent(before.actions) + tail).subrange(0, n));
    }
}

/// However the hardware answers, filling the transmit FIFO moves bytes from
/// the front of the transmit buffer into it and changes nothing else but the
/// mark that something was sent.
pub proof fn law_flush_moves_bytes(s: State, written: nat, events: Seq<Event>)
    ensures
        ({
            let r = run(s, Program { steps: seq![Step::Flush], written }, events);
            &&& sent(r.actions) + r.state.tx == s.tx
            &&& r.state == (State {
                tx: r.state.tx,
                drain_pending: s.drain_pending || sent(r.actions).len() > 0,
                ..s
            })
            &&& r.job.written == written
            &&& r.job.steps == seq![Step::Flush] || r.job.steps == Seq::<Step>::empty()
        }),
    decreases events.len(),
{
    let job = Program { steps: seq![Step::Flush], written };
    let r = run(s, job, events);
    if events.len() == 0 {
        assert(sent(r.actions) + r.state.tx =~= s.tx);
    } else {
        let before = run(s, job, events.drop_last());
        law_flush_moves_bytes(s, written, events.drop_last());
        let action = r.actions.last();
        lemma_sent_push(before.actions, action);
        reveal_with_fuel(sent, 2);
        assert(seq![action].drop_last() =~= Seq::<Action>::empty());
        reveal_with_fuel(advance, 2);
        if before.job.steps.len() > 0 {
            assert(before.job.rest().steps =~= Seq::empty());
        }
        if action is WriteTx {
            assert(sent(seq![action]) =~= seq![before.state.tx[0]]);
            assert(sent(r.actions) + r.state.tx =~= sent(before.actions) + before.state.tx);
        } else {
            assert(r.state == before.state);
            assert(sent(r.actions) =~= sent(before.actions));
        }
    }
}

/// What was written is sent: whatever the hardware answers, what has gone into
/// the transmit FIFO after a write and what still waits is what waited before
/// and then the bytes that the write reported as taken.
pub proof fn law_written_bytes_are_sent(s: State, data: Seq<u8>, events: Seq<Event>)
    requires
        s.inv(),
    ensures
        ({
            let n = s.accepts(data.len());
            let r = run(s.offer(data), Program { steps: seq![Step::Flush], written: n }, events);
            &&& sent(r.actions) + r.state.tx == s.tx + data.take(n as int)
            &&& r.job.written == n
            &&& n == data.len() || s.tx.len() + n == s.tx_capacity
        }),
{
    law_flush_moves_bytes(s.offer(data), s.accepts(data.len()), events);
}

/// Printing a line is printing the text and then, once the transmit FIFO has
/// been filled, writing the line end: until the text is flushed the two jobs
/// do the same, and then the line end is offered and flushed.
pub proof fn law_line_end_follows_text(s: State, written: nat, end: Seq<u8>, event: Event)
    ensures
        ({
            let text = Program { steps: seq![Step::Flush], written };
            let line = Program {
                steps: seq![Step::Flush, Step::Queue(end), Step::Flush],
                written,
            };
            let (after, rest, action) = advance(s, text, event);
            if action is Done {
                advance(s, line, event) == advance(
                    after.offer(end),
                    Program {
                        steps: seq![Step::Flush],
                        written: written + after.accepts(end.len()),
                    },
                    Event::Continue,
                )
            } else {
                rest == text && advance(s, line, event) == (after, line, action)
            }
        }),
{
    let text = Program { steps: seq![Step::Flush], written };
    let line = Program { steps: seq![Step::Flush, Step::Queue(end), Step::Flush], written };
    let behind = seq![Step::Queue(end), Step::Flush];
    law_stages_in_sequence(s, text, behind, event);
    assert(text.steps + behind =~= line.steps);
    assert(Seq::<Step>::empty() + behind =~= behind);
    assert(behind.drop_first() =~= seq![Step::Flush]);
    reveal_with_fuel(advance, 2);
    assert(text.rest().steps =~= Seq::empty());
}

/// The stages of a line that is printed without waiting, once its text has been
/// offered.
pub open spec fn line_steps(end: Seq<u8>) -> Seq<Step> {
    seq![Step::Flush, Step::Queue(end), Step::Flush]
}

/// How many bytes of the line end the transmit buffer took: none before the
/// line end is offered, and then what it had room for at that moment.
pub open spec fn end_taken(s: State, job: Program, end: Seq<u8>, events: Seq<Event>) -> nat
    decreases events.len(),
{
    if events.len() == 0 {
        0
    } else {
        let front = events.drop_last();
        let before = run(s, job, front);
        let now = run(s, job, events);
        if before.job.steps == line_steps(end) && now.job.steps != line_steps(end) {
            before.state.accepts(end.len())
        } else {
            end_taken(s, job, end, front)
        }
    }
}

/// One resumption of a line that has not got to its end.
proof fn lemma_line_step(s: State, written: nat, end: Seq<u8>, event: Event)
    ensures
        ({
            let job = Program { steps: line_steps(end), written };
            let (after, rest, action) = advance(s, job, event);
            if event is TxRoom && s.tx.len() > 0 {
                &&& after == s.send_front()
                &&& rest == job
                &&& action == Action::WriteTx(s.tx[0] as u32)
            } else if event is TxRoom || event is TxFull {
                &&& after == s.offer(end)
                &&& rest == (Program {
                    steps: seq![Step::Flush],
                    written: written + s.accepts(end.len()),
                })
                &&& action is TestTx
            } else {
                (after, rest, action) == (s, job, Action::TestTx)
            }
        }),
{
    law_line_end_follows_text(s, written, end, event);
    let text = Program { steps: seq![Step::Flush], written };
    reveal_with_fuel(advance, 2);
    assert(text.rest().steps =~= Seq::empty());
}

/// One resumption of the last stage of a line, or after it.
proof fn lemma_last_flush_step(s: State, job: Program, event: Event)
    requires
        job.steps == seq![Step::Flush] || job.steps == Seq::<Step>::empty(),
    ensures
        ({
            let (after, rest, action) = advance(s, job, event);
            &&& rest.steps == seq![Step::Flush] || rest.steps == Seq::<Step>::empty()
            &&& rest.written == job.written
            &&& if action is WriteTx {
                &&& s.tx.len() > 0
                &&& action == Action::WriteTx(s.tx[0] as u32)
                &&& after == s.send_front()
            } else {
                after == s
            }
        }),
{
    reveal_with_fuel(advance, 2);
    if job.steps.len() > 0 {
        assert(job.rest().steps =~= Seq::empty());
    }
}

/// A line that is printed without waiting: whatever the hardware answers, what
/// has gone into the transmit FIFO and what still waits is what waited before,
/// then the bytes of the text that were taken, and then the bytes of the line
/// end that were taken. The job has written as many as were taken of the two.
/// The drop counter counts one for the text if it was not taken whole, and one
/// for the line end if it was offered and not taken whole. Nothing else changes
/// but the mark that something was sent.
#[verifier::spinoff_prover]
pub proof fn law_line_without_waiting(s: State, text: Seq<u8>, end: Seq<u8>, events: Seq<Event>)
    requires
        s.inv(),
    ensures
        ({
            let a = s.accepts(text.len());
            let job = Program { steps: line_steps(end), written: a };
            let r = run(s.offer(text), job, events);
            let c = end_taken(s.offer(text), job, end, events);
            let offered = r.job.steps != line_steps(end);
            let drops = (if a < text.len() {
                1nat
            } else {
                0
            }) + (if offered && c < end.len() {
                1nat
            } else {
                0
            });
            &&& !offered ==> c == 0
            &&& offered ==> r.job.steps == seq![Step::Flush] || r.job.steps == Seq::<Step>::empty()
            &&& c <= end.len()
            &&& sent(r.actions) + r.state.tx == s.tx + text.take(a as int) + end.take(c as int)
            &&& r.job.written == a + c
            &&& r.state == (State {
                tx: r.state.tx,
                dropped_tx: counted_by(s.dropped_tx, drops),
                drain_pending: s.drain_pending || sent(r.actions).len() > 0,
                ..s
            })
        }),
    decreases events.len(),
{
    let a = s.accepts(text.len());
    let job = Program { steps: line_steps(end), written: a };
    let begun = s.offer(text);
    let r = run(begun, job, events);
    let all = s.tx + text.take(a as int);
    if events.len() == 0 {
        assert(sent(r.actions) + r.state.tx =~= all + end.take(0));
    } else {
        let front = events.drop_last();
        let event = events.last();
        let before = run(begun, job, front);
        law_line_without_waiting(s, text, end, front);
        law_waiting_bytes_leave_in_order(begun, job, front);
        let c = end_taken(begun, job, end, front);
        let action = r.actions.last();
        lemma_sent_push(before.actions, action);
        reveal_with_fuel(sent, 2);
        assert(seq![action].drop_last() =~= Seq::<Action>::empty());
        assert(line_steps(end).len() == 3);
        if before.job.steps == line_steps(end) {
            lemma_line_step(before.state, before.job.written, end, event);
        } else {
            lemma_last_flush_step(before.state, before.job, event);
        }
        if action is WriteTx {
            assert(sent(seq![action]) =~= seq![before.state.tx[0]]);
            assert(sent(r.actions) + r.state.tx =~= sent(before.actions) + before.state.tx);
        } else {
            assert(sent(r.actions) =~= sent(before.actions));
            if r.state != before.state {
                let n = before.state.accepts(end.len());
                assert(sent(r.actions) + r.state.tx =~= sent(before.actions) + before.state.tx
                    + end.take(n as int));
                assert(all + end.take(0) =~= all);
                assert(sent(r.actions) + r.state.tx =~= all + end.take(n as int));
            }
        }
    }
}

/// The bytes of words of the receive FIFO.
pub open spec fn decoded_all(words: Seq<u32>) -> Seq<u8> {
    Seq::new(words.len(), |i: int| decoded(words[i]))
}

/// A counter that was counted up `n` times and starts again after its largest
/// value.
pub open spec fn counted_by(x: u32, n: nat) -> u32 {
    ((x + n) % 0x1_0000_0000) as u32
}

/// Received bytes are kept in the order in which they came, as many as there
/// is room for; the rest are counted. Where echo is on, the same bytes are
/// queued to be sent in the same order, as many as there is room for, and the
/// rest are counted. Nothing else changes.
pub proof fn law_received_bytes_are_kept_in_order(s: State, words: Seq<u32>)
    requires
        s.inv(),
    ensures
        ({
            let after = s.receive_all(words);
            let bytes = decoded_all(words);
            let room = (s.rx_capacity - s.rx.len()) as nat;
            let kept = if words.len() <= room {
                words.len()
            } else {
                room
            };
            let echoed = if s.config.auto_echo {
                s.accepts(words.len())
            } else {
                0
            };
            let unsent = if s.config.auto_echo {
                (words.len() - echoed) as nat
            } else {
                0
            };
            &&& after.inv()
            &&& after == (State {
                rx: s.rx + bytes.take(kept as int),
                tx: s.tx + bytes.take(echoed as int),
                dropped_rx: counted_by(s.dropped_rx, (words.len() - kept) as nat),
                dropped_tx: counted_by(s.dropped_tx, unsent),
                ..s
            })
        }),
    decreases words.len(),
{
    let bytes = decoded_all(words);
    let after = s.receive_all(words);
    if words.len() == 0 {
        assert(s.rx + bytes.take(0) =~= s.rx);
        assert(s.tx + bytes.take(0) =~= s.tx);
    } else {
        let front = words.drop_last();
        law_received_bytes_are_kept_in_order(s, front);
        let before = s.receive_all(front);
        let byte = decoded(words.last());
        let one = seq![byte];
        let n = words.len() as int;
        assert(bytes =~= decoded_all(front).push(byte));
        assert(bytes.take(n) =~= bytes);
        assert(bytes.take(n - 1) =~= decoded_all(front));
        assert(decoded_all(front).take(n - 1) =~= decoded_all(front));
        assert(one.take(1) =~= one);
        assert(one.take(0) =~= Seq::<u8>::empty());
        let room = s.rx_capacity - s.rx.len();
        if n <= room {
            assert(after.rx =~= s.rx + bytes.take(n));
        } else {
            assert(bytes.take(room) =~= decoded_all(front).take(room));
            assert(after.rx =~= s.rx + bytes.take(room));
        }
        if s.config.auto_echo {
            let tx_room = s.tx_capacity - s.tx.len();
            if n <= tx_room {
                assert(after.tx =~= s.tx + bytes.take(n));
            } else {
                assert(bytes.take(tx_room) =~= decoded_all(front).take(tx_room));
                assert(after.tx =~= s.tx + bytes.take(tx_room));
            }
        } else {
            assert(bytes.take(0) =~= decoded_all(front).take(0));
        }
    }
}

/// The words that a receiver gets when a transmitter sends `data`.
pub open spec fn sent_over_the_line(data: Seq<u8>, clock_hz: u32, baud: u32) -> Seq<u32> {
    Seq::new(
        data.len(),
        |i: int|
            looped(
                tx_machine(0, clock_hz, baud).shift,
                rx_machine(0, clock_hz, baud).shift,
                data[i] as u32,
                8,
            ),
    )
}

/// What one end sends the other can read, byte for byte and in order, as long
/// as its receive buffer has room.
pub proof fn law_bytes_cross_the_line(s: State, data: Seq<u8>)
    requires
        s.inv(),
        s.rx.len() + data.len() <= s.rx_capacity,
    ensures
        s.receive_all(sent_over_the_line(data, s.clock_hz, s.config.baud)).rx == s.rx + data,
{
    let words = sent_over_the_line(data, s.clock_hz, s.config.baud);
    law_received_bytes_are_kept_in_order(s, words);
    assert forall|i: int| 0 <= i < data.len() implies decoded_all(words)[i] == data[i] by {
        law_sent_byte_is_received(data[i]);
    }
    assert(decoded_all(words).take(data.len() as int) =~= data);
}

/// The words that the receive FIFO gave.
pub open spec fn words_of(events: Seq<Event>) -> Seq<u32>
    decreases events.len(),
{
    if events.len() == 0 {
        Seq::empty()
    } else {
        match events.last() {
            Event::RxWord(word) => words_of(events.drop_last()).push(word),
            _ => words_of(events.drop_last()),
        }
    }
}

/// The bytes that a reader received and that found room in the receive buffer.
pub open spec fn kept(reader: Filling, events: Seq<Event>) -> Seq<u8>
    decreases events.len(),
{
    if events.len() == 0 {
        Seq::empty()
    } else {
        let front = events.drop_last();
        let s = fill_all(reader, front).state;
        match events.last() {
            Event::RxWord(word) if s.rx.len() < s.rx_capacity => kept(reader, front).push(
                decoded(word),
            ),
            _ => kept(reader, front),
        }
    }
}

/// Where the bytes are that a reader has taken.
proof fn lemma_reader_bytes(reader: Filling, events: Seq<Event>)
    requires
        reader.state.inv(),
        reader.filled <= reader.buf.len(),
    ensures
        ({
            let after = fill_all(reader, events);
            let taken = after.buf.subrange(reader.filled as int, after.filled as int);
            &&& after.state.inv()
            &&& reader.filled <= after.filled <= after.buf.len() == reader.buf.len()
            &&& taken + after.state.rx == reader.state.rx + kept(reader, events)
            &&& after.buf.take(reader.filled as int) == reader.buf.take(reader.filled as int)
            &&& after.buf.skip(after.filled as int) == reader.buf.skip(after.filled as int)
        }),
    decreases events.len(),
{
    let after = fill_all(reader, events);
    let a = reader.filled as int;
    let new = kept(reader, events);
    if events.len() == 0 {
        assert(after.buf.subrange(a, a) + after.state.rx =~= reader.state.rx + new);
    } else {
        let front = events.drop_last();
        let mid = fill_all(reader, front);
        lemma_reader_bytes(reader, front);
        let before = mid.buf.subrange(a, mid.filled as int);
        let taken = after.buf.subrange(a, after.filled as int);
        if let Event::RxWord(word) = events.last() {
            assert(taken =~= before);
            if mid.state.rx.len() < mid.state.rx_capacity {
                assert(taken + after.state.rx =~= (before + mid.state.rx).push(decoded(word)));
                assert(reader.state.rx + new =~= (reader.state.rx + kept(reader, front)).push(
                    decoded(word),
                ));
            }
        } else if after.filled > mid.filled {
            assert(taken =~= before.push(mid.state.rx[0]));
            assert(taken + after.state.rx =~= before + mid.state.rx);
            assert(after.buf.take(a) =~= mid.buf.take(a));
            assert(after.buf.skip(after.filled as int) =~= mid.buf.skip(mid.filled as int).skip(1));
            assert(reader.buf.skip(after.filled as int) =~= reader.buf.skip(
                mid.filled as int,
            ).skip(1));
        }
    }
}

/// How many words a reader received, kept and counted as dropped.
proof fn lemma_reader_counts(reader: Filling, events: Seq<Event>)
    ensures
        ({
            let words = words_of(events);
            let new = kept(reader, events);
            &&& new.len() <= words.len() <= events.len()
            &&& fill_all(reader, events).state.dropped_rx == counted_by(
                reader.state.dropped_rx,
                (words.len() - new.len()) as nat,
            )
            &&& new.len() == words.len() ==> new == decoded_all(words)
        }),
    decreases events.len(),
{
    let words = words_of(events);
    let new = kept(reader, events);
    if events.len() == 0 {
        assert(new =~= decoded_all(words));
    } else {
        let front = events.drop_last();
        lemma_reader_counts(reader, front);
        if let Event::RxWord(word) = events.last() {
            assert(decoded_all(words) =~= decoded_all(words_of(front)).push(decoded(word)));
        }
    }
}

/// What a reader that waits until its buffer is full has taken, and what it has
/// left, is what was received before and then what was received meanwhile and
/// found room, in order, none lost and none twice. The rest is counted: where
/// every word found room, and so where fewer than 2^32 events left the counter
/// where it was, all the received bytes are there. The reader writes one byte
/// after the other from where it was, and touches nothing behind them.
#[verifier::spinoff_prover]
pub proof fn law_reader_takes_bytes_in_order(reader: Filling, events: Seq<Event>)
    requires
        reader.state.inv(),
        reader.filled <= reader.buf.len(),
    ensures
        ({
            let after = fill_all(reader, events);
            let taken = after.buf.subrange(reader.filled as int, after.filled as int);
            let words = words_of(events);
            let new = kept(reader, events);
            &&& after.state.inv()
            &&& reader.filled <= after.filled <= after.buf.len() == reader.buf.len()
            &&& taken + after.state.rx == reader.state.rx + new
            &&& new.len() <= words.len()
            &&& after.state.dropped_rx == counted_by(
                reader.state.dropped_rx,
                (words.len() - new.len()) as nat,
            )
            &&& new.len() == words.len() ==> new == decoded_all(words)
            &&& events.len() < 0x1_0000_0000 && after.state.dropped_rx
                == reader.state.dropped_rx ==> new == decoded_all(words)
            &&& after.buf.take(reader.filled as int) == reader.buf.take(reader.filled as int)
            &&& after.buf.skip(after.filled as int) == reader.buf.skip(after.filled as int)
        }),
{
    lemma_reader_bytes(reader, events);
    lemma_reader_counts(reader, events);
}

/// A reader that waits until its buffer is full gets there: with enough bytes
/// received, it is full after one look at an empty receive FIFO for each byte
/// that it lacks, and holds the oldest of them in order.
pub proof fn law_reader_fills_its_buffer(reader: Filling, k: nat)
    requires
        reader.filled + k <= reader.buf.len(),
        k <= reader.state.rx.len(),
    ensures
        fill_all(reader, Seq::new(k, |i: int| Event::RxEmpty)) == (Filling {
            state: reader.state.take(k),
            buf: reader.buf.take(reader.filled as int) + reader.state.rx.take(k as int)
                + reader.buf.skip((reader.filled + k) as int),
            filled: reader.filled + k,
        }),
    decreases k,
{
    let events = Seq::new(k, |i: int| Event::RxEmpty);
    let rx = reader.state.rx;
    let a = reader.filled as int;
    if k == 0 {
        assert(rx.skip(0) =~= rx);
        assert(reader.buf.take(a) + rx.take(0) + reader.buf.skip(a) =~= reader.buf);
    } else {
        let j = (k - 1) as nat;
        law_reader_fills_its_buffer(reader, j);
        assert(events.drop_last() =~= Seq::new(j, |i: int| Event::RxEmpty));
        let after = fill_all(reader, events);
        assert(after.state.rx =~= rx.skip(k as int));
        assert(after.buf =~= reader.buf.take(a) + rx.take(k as int) + reader.buf.skip((a + k) as int));
    }
}

/// The settings are judged before anything is installed: a UART that the
/// settings rule out is refused at once, for the same reason as ever after,
/// and once something is installed only an installation can fail.
pub proof fn law_settings_are_judged_first(
    clock_hz: u32,
    config: UartConfig,
    done: Installation,
)
    ensures
        refusal(clock_hz, config, Installation::NotStarted) is Some ==> refusal(
            clock_hz,
            config,
            done,
        ) == refusal(clock_hz, config, Installation::NotStarted),
        refusal(clock_hz, config, Installation::NotStarted) is None && refusal(
            clock_hz,
            config,
            done,
        ) is Some ==> refusal(clock_hz, config, done) == Some(InitError::InstallTxProgram)
            || refusal(clock_hz, config, done) == Some(InitError::InstallRxProgram),
{
}

/// The wait grows with the number of characters, and is never none.
pub proof fn law_wait_grows(s: State, fewer: u32, more: u32)
    requires
        s.inv(),
        fewer <= more,
    ensures
        1 <= s.cycles(fewer) <= s.cycles(more),
{
    let d = s.char_delay_cycles as int;
    let a = if fewer < 1 {
        1
    } else {
        fewer as int
    };
    let b = if more < 1 {
        1
    } else {
        more as int
    };
    assert(1 <= d * a <= d * b) by (nonlinear_arith)
        requires
            1 <= d,
            1 <= a <= b,
    ;
}

/// The events of a receive FIFO that gives these words.
pub open spec fn word_events(words: Seq<u32>) -> Seq<Event> {
    seq![Event::Continue] + Seq::new(words.len(), |i: int| Event::RxWord(words[i]))
}

/// The events of a transmit FIFO that takes `k` words.
pub open spec fn room_events(k: nat) -> Seq<Event>
    decreases k,
{
    if k == 0 {
        Seq::empty()
    } else {
        room_events((k - 1) as nat).push(Event::TxRoom).push(Event::Continue)
    }
}

/// The smaller of two numbers.
pub open spec fn smaller(a: nat, b: nat) -> nat {
    if a <= b {
        a
    } else {
        b
    }
}

/// The events of a poll that finds these words in the receive FIFO, then finds
/// it empty, and then, with `waiting` bytes to send, finds room for `room` words
/// in the transmit FIFO: it is full after them, unless the bytes run out first.
pub open spec fn poll_events(words: Seq<u32>, waiting: nat, room: nat) -> Seq<Event> {
    (word_events(words).push(Event::RxEmpty) + room_events(smaller(room, waiting))).push(
        if room > waiting {
            Event::TxRoom
        } else {
            Event::TxFull
        },
    )
}

/// A run that is resumed once more.
proof fn lemma_run_push(s: State, job: Program, events: Seq<Event>, event: Event)
    ensures
        ({
            let before = run(s, job, events);
            let r = run(s, job, events.push(event));
            let (state, rest, action) = advance(before.state, before.job, event);
            &&& r == (Run {
                state,
                job: rest,
                actions: before.actions.push(action),
            })
            &&& sent(r.actions) == sent(before.actions) + sent(seq![action])
        }),
{
    assert(events.push(event).drop_last() =~= events);
    let before = run(s, job, events);
    lemma_sent_push(before.actions, advance(before.state, before.job, event).2);
}

/// The first half of a poll.
proof fn lemma_pump_run(s: State, job: Program, words: Seq<u32>)
    requires
        job.steps.len() > 0,
        job.steps[0] is Pump,
    ensures
        ({
            let r = run(s, job, word_events(words));
            r.state == s.receive_all(words) && r.job == job && sent(r.actions) == Seq::<
                u8,
            >::empty()
        }),
    decreases words.len(),
{
    reveal_with_fuel(sent, 2);
    assert(seq![Action::ReadRx].drop_last() =~= Seq::<Action>::empty());
    if words.len() == 0 {
        assert(word_events(words) =~= Seq::empty().push(Event::Continue));
        lemma_run_push(s, job, Seq::empty(), Event::Continue);
    } else {
        lemma_pump_run(s, job, words.drop_last());
        assert(word_events(words) =~= word_events(words.drop_last()).push(
            Event::RxWord(words.last()),
        ));
        lemma_run_push(s, job, word_events(words.drop_last()), Event::RxWord(words.last()));
    }
}

/// The second half of a poll, after whatever happened before.
proof fn lemma_flush_run(s: State, job: Program, events: Seq<Event>, k: nat)
    requires
        run(s, job, events).job.steps == seq![Step::Flush],
        k <= run(s, job, events).state.tx.len(),
    ensures
        ({
            let before = run(s, job, events);
            let r = run(s, job, events + room_events(k));
            &&& r.state == (State {
                tx: before.state.tx.skip(k as int),
                drain_pending: before.state.drain_pending || k > 0,
                ..before.state
            })
            &&& r.job == before.job
            &&& sent(r.actions) == sent(before.actions) + before.state.tx.take(k as int)
        }),
    decreases k,
{
    let before = run(s, job, events);
    let tx = before.state.tx;
    if k == 0 {
        assert(events + room_events(k) =~= events);
        assert(tx.skip(0) =~= tx);
        assert(sent(before.actions) + tx.take(0) =~= sent(before.actions));
    } else {
        let j = (k - 1) as nat;
        lemma_flush_run(s, job, events, j);
        let half = (events + room_events(j)).push(Event::TxRoom);
        lemma_run_push(s, job, events + room_events(j), Event::TxRoom);
        lemma_run_push(s, job, half, Event::Continue);
        assert(events + room_events(k) =~= half.push(Event::Continue));
        reveal_with_fuel(sent, 2);
        assert(seq![Action::TestTx].drop_last() =~= Seq::<Action>::empty());
        let write = Action::WriteTx(tx[j as int] as u32);
        assert(seq![write].drop_last() =~= Seq::<Action>::empty());
        assert(sent(seq![write]) =~= seq![tx[j as int]]);
        assert(tx.skip(j as int).skip(1) =~= tx.skip(k as int));
        assert(tx.take(k as int) =~= tx.take(j as int) + seq![tx[j as int]]);
        assert(sent(run(s, job, events + room_events(k)).actions) =~= sent(before.actions)
            + tx.take(k as int));
    }
}

/// What a poll comes to: every word that the receive FIFO had is received, and
/// then as many bytes as wait and as the transmit FIFO has room for, echoed ones
/// among them, have gone into it, oldest first.
#[verifier::spinoff_prover]
pub proof fn law_poll(s: State, words: Seq<u32>, room: nat)
    ensures
        ({
            let job = Program { steps: seq![Step::Pump, Step::Flush], written: 0 };
            let received = s.receive_all(words);
            let k = smaller(room, received.tx.len());
            let r = run(s, job, poll_events(words, received.tx.len(), room));
            &&& r.actions.last() is Done
            &&& r.job.steps.len() == 0
            &&& sent(r.actions) == received.tx.take(k as int)
            &&& r.state == (State {
                tx: received.tx.skip(k as int),
                drain_pending: received.drain_pending || k > 0,
                ..received
            })
        }),
{
    let job = Program { steps: seq![Step::Pump, Step::Flush], written: 0 };
    let received = s.receive_all(words);
    let k = smaller(room, received.tx.len());
    let last = if room > received.tx.len() {
        Event::TxRoom
    } else {
        Event::TxFull
    };
    let pumped = word_events(words).push(Event::RxEmpty);
    lemma_pump_run(s, job, words);
    lemma_run_push(s, job, word_events(words), Event::RxEmpty);
    reveal_with_fuel(advance, 3);
    reveal_with_fuel(sent, 2);
    assert(job.rest().steps =~= seq![Step::Flush]);
    assert(seq![Action::TestTx].drop_last() =~= Seq::<Action>::empty());
    assert(seq![Action::Done].drop_last() =~= Seq::<Action>::empty());
    assert(sent(run(s, job, pumped).actions) =~= Seq::<u8>::empty());
    lemma_flush_run(s, job, pumped, k);
    lemma_run_push(s, job, pumped + room_events(k), last);
    let r = run(s, job, poll_events(words, received.tx.len(), room));
    assert(seq![Step::Flush].drop_first() =~= Seq::empty());
    assert(sent(r.actions) =~= received.tx.take(k as int));
}

} // verus!
