//! What holds of bytes that come in, and of the two buffers.
use super::{decoded_all, words_of};
use crate::model::{await_byte, fill, Event, Filling, Reception, State};
use crate::wire::{decoded, law_decoded_bits};
use vstd::prelude::*;

verus! {

/// A word that comes out of the receive FIFO becomes one byte, its low eight
/// bits in opposite order. The byte goes behind what waits to be read, or is
/// counted where there is no room; the counter starts again after its largest
/// value. Where echo is on the same holds of the transmit buffer, and where it
/// is off nothing is queued. Nothing else changes.
pub proof fn law_received_word(s: State, word: u32)
    requires
        s.inv(),
    ensures
        ({
            let after = s.receive(word);
            let room = s.rx.len() < s.rx_capacity;
            let tx_room = s.tx.len() < s.tx_capacity;
            &&& after == (State {
                rx: after.rx,
                tx: after.tx,
                dropped_rx: after.dropped_rx,
                dropped_tx: after.dropped_tx,
                ..s
            })
            &&& room ==> after.rx.len() == s.rx.len() + 1 && after.rx.drop_last() == s.rx
                && after.dropped_rx == s.dropped_rx
            &&& room ==> forall|i: u32|
                i < 8 ==> #[trigger] (after.rx.last() as u32 >> i) & 1 == (word >> ((7 - i) as u32))
                    & 1
            &&& !room ==> after.rx == s.rx && after.dropped_rx == (s.dropped_rx + 1)
                % 0x1_0000_0000
            &&& !s.config.auto_echo ==> after.tx == s.tx && after.dropped_tx == s.dropped_tx
            &&& s.config.auto_echo && tx_room ==> after.tx.len() == s.tx.len() + 1
                && after.tx.drop_last() == s.tx && after.dropped_tx == s.dropped_tx
            &&& s.config.auto_echo && tx_room ==> forall|i: u32|
                i < 8 ==> #[trigger] (after.tx.last() as u32 >> i) & 1 == (word >> ((7 - i) as u32))
                    & 1
            &&& s.config.auto_echo && !tx_room ==> after.tx == s.tx && after.dropped_tx == (
            s.dropped_tx + 1) % 0x1_0000_0000
        }),
{
    let byte = decoded(word);
    let one = seq![byte];
    let after = s.receive(word);
    assert forall|i: u32| i < 8 implies #[trigger] (byte as u32 >> i) & 1 == (word >> ((7
        - i) as u32)) & 1 by {
        law_decoded_bits(word, i);
    }
    assert(one.take(1) =~= one);
    assert(one.take(0) =~= Seq::<u8>::empty());
    if s.rx.len() < s.rx_capacity {
        assert(after.rx == s.rx.push(byte));
        assert(after.rx.drop_last() =~= s.rx);
    }
    if s.config.auto_echo {
        if s.tx.len() < s.tx_capacity {
            assert(after.tx =~= s.tx.push(byte));
            assert(after.tx.drop_last() =~= s.tx);
        } else {
            assert(after.tx =~= s.tx);
        }
    }
}

/// Bytes that are offered to the transmit buffer go behind what waits there,
/// the first of them first, until they run out or the buffer is full. Where
/// some are left over, one is counted; the counter starts again after its
/// largest value. Nothing else changes.
pub proof fn law_offered_bytes(s: State, data: Seq<u8>)
    requires
        s.inv(),
    ensures
        ({
            let after = s.offer(data);
            let n = s.accepts(data.len());
            &&& after.tx == s.tx + data.take(n as int)
            &&& n <= data.len() && after.tx.len() <= s.tx_capacity
            &&& n == data.len() || after.tx.len() == s.tx_capacity
            &&& n == data.len() ==> after.dropped_tx == s.dropped_tx
            &&& n < data.len() ==> after.dropped_tx == (s.dropped_tx + 1) % 0x1_0000_0000
            &&& after == (State { tx: after.tx, dropped_tx: after.dropped_tx, ..s })
        }),
{
}

/// Taking bytes out of the receive buffer takes the oldest and changes nothing
/// else.
pub proof fn law_taken_bytes(s: State, n: nat)
    requires
        n <= s.rx.len(),
    ensures
        s.rx.take(n as int) + s.take(n).rx == s.rx,
        s.take(n) == (State { rx: s.take(n).rx, ..s }),
{
    assert(s.rx.take(n as int) + s.take(n).rx =~= s.rx);
}

/// A reader that waits for one byte loses none. With a word it goes on and the
/// word is received. With the receive FIFO empty it is done exactly where bytes
/// wait, and the byte that it gives and what still waits then are what waited
/// before; otherwise it looks again. In every other case nothing changes.
pub proof fn law_awaited_byte(s: State, event: Event)
    ensures
        ({
            let (after, got) = await_byte(s, event);
            &&& event matches Event::RxWord(word) ==> got is NextWord && after == s.receive(word)
            &&& !(event is RxWord) ==> match got {
                Reception::Done(byte) => seq![byte] + after.rx == s.rx,
                _ => after.rx == s.rx,
            }
            &&& !(event is RxWord) ==> after == (State { rx: after.rx, ..s })
            &&& event is RxEmpty ==> (got is Done <==> s.rx.len() > 0) && (got is Spin <==> s.rx.len()
                == 0)
            &&& !(event is RxEmpty) ==> got is NextWord
        }),
{
    if event is RxEmpty && s.rx.len() > 0 {
        assert(seq![s.rx[0]] + s.rx.skip(1) =~= s.rx);
    }
}

/// The state that calls of a reader that waits for one byte leave behind, one
/// call after the other, and the bytes that they gave.
pub open spec fn await_all(s: State, events: Seq<Event>) -> (State, Seq<u8>)
    decreases events.len(),
{
    if events.len() == 0 {
        (s, Seq::empty())
    } else {
        let (before, bytes) = await_all(s, events.drop_last());
        let (after, got) = await_byte(before, events.last());
        (
            after,
            match got {
                Reception::Done(byte) => bytes.push(byte),
                _ => bytes,
            },
        )
    }
}

/// The bytes that such calls received and that found room.
pub open spec fn await_kept(s: State, events: Seq<Event>) -> Seq<u8>
    decreases events.len(),
{
    if events.len() == 0 {
        Seq::empty()
    } else {
        let front = events.drop_last();
        let before = await_all(s, front).0;
        match events.last() {
            Event::RxWord(word) if before.rx.len() < before.rx_capacity => await_kept(
                s,
                front,
            ).push(decoded(word)),
            _ => await_kept(s, front),
        }
    }
}

/// Over any run of calls, the bytes that a reader of single bytes gave and what
/// still waits are what waited before and then what was received and found
/// room, in order, none lost and none twice. Every word that found no room is
/// counted, and where all found room all their bytes are there.
pub proof fn law_awaited_bytes_in_order(s: State, events: Seq<Event>)
    requires
        s.inv(),
    ensures
        ({
            let (after, bytes) = await_all(s, events);
            let new = await_kept(s, events);
            let words = words_of(events);
            &&& after.inv()
            &&& after.rx_capacity == s.rx_capacity
            &&& bytes + after.rx == s.rx + new
            &&& new.len() <= words.len() <= events.len()
            &&& after.dropped_rx == (s.dropped_rx + (words.len() - new.len())) % 0x1_0000_0000
            &&& new.len() == words.len() ==> new == decoded_all(words)
        }),
    decreases events.len(),
{
    let (after, bytes) = await_all(s, events);
    let new = await_kept(s, events);
    let words = words_of(events);
    if events.len() == 0 {
        assert(bytes + after.rx =~= s.rx + new);
        assert(new =~= decoded_all(words));
    } else {
        let front = events.drop_last();
        let (before, earlier) = await_all(s, front);
        law_awaited_bytes_in_order(s, front);
        law_awaited_byte(before, events.last());
        if let Event::RxWord(word) = events.last() {
            law_received_word(before, word);
            assert(decoded_all(words) =~= decoded_all(words_of(front)).push(decoded(word)));
            if before.rx.len() < before.rx_capacity {
                assert(after.rx == before.rx.push(decoded(word)));
                assert(bytes + after.rx =~= (earlier + before.rx).push(decoded(word)));
                assert(s.rx + new =~= (s.rx + await_kept(s, front)).push(decoded(word)));
            }
        } else {
            assert(bytes + after.rx =~= earlier + before.rx);
        }
    }
}

/// A reader that fills a buffer loses no byte and writes nowhere else. With a
/// word it goes on and the word is received. Otherwise what it adds to the
/// buffer and what still waits then are what waited before, and it is done
/// exactly where the buffer is full. With the receive FIFO empty it adds one
/// byte exactly where one waits and there is space, and looks again where there
/// is space and none waits.
pub proof fn law_filling_step(reader: Filling, event: Event)
    requires
        reader.filled <= reader.buf.len(),
    ensures
        ({
            let (after, got) = fill(reader, event);
            let a = reader.filled as int;
            let b = after.filled as int;
            &&& a <= b <= a + 1 && b <= after.buf.len() == reader.buf.len()
            &&& event matches Event::RxWord(word) ==> got is NextWord && after == (Filling {
                state: reader.state.receive(word),
                ..reader
            })
            &&& !(event is RxWord) ==> after.buf.subrange(a, b) + after.state.rx == reader.state.rx
            &&& !(event is RxWord) ==> after.state == (State { rx: after.state.rx, ..reader.state })
            &&& after.buf.take(a) == reader.buf.take(a)
            &&& after.buf.skip(b) == reader.buf.skip(b)
            &&& !(event is RxWord) ==> (got is Done <==> b == after.buf.len())
            &&& event is RxEmpty ==> (b == a + 1 <==> a < reader.buf.len() && reader.state.rx.len()
                > 0)
            &&& got is Spin <==> event is RxEmpty && a < reader.buf.len() && reader.state.rx.len()
                == 0
            &&& !(event is RxEmpty) ==> b == a
        }),
{
    let (after, got) = fill(reader, event);
    let a = reader.filled as int;
    let b = after.filled as int;
    law_awaited_byte(reader.state, event);
    if b > a {
        assert(after.buf.subrange(a, b) =~= seq![reader.state.rx[0]]);
        assert(after.buf.take(a) =~= reader.buf.take(a));
        assert(after.buf.skip(b) =~= reader.buf.skip(b));
        assert(after.buf.subrange(a, b) + after.state.rx =~= reader.state.rx);
    } else {
        assert(after.buf.subrange(a, b) + after.state.rx =~= after.state.rx);
    }
}

} // verus!
