//! How a byte lies in the words of the FIFOs and on the line.
use vstd::prelude::*;

verus! {

/// The end at which a shift register gives or takes a bit.
#[derive(Debug, Clone, Copy, PartialEq, Eq, Structural)]
pub enum ShiftDirection {
    Left,
    Right,
}

/// The bits of `x` in the opposite order.
pub open spec fn reversed(x: u8) -> u8 {
    ((x & 0x01) << 7) | ((x & 0x02) << 5) | ((x & 0x04) << 3) | ((x & 0x08) << 1) | ((x & 0x10)
        >> 1) | ((x & 0x20) >> 3) | ((x & 0x40) >> 5) | ((x & 0x80) >> 7)
}

/// `u8::reverse_bits`: the lowest bit becomes the highest, the second lowest
/// the second highest, and so on.
pub assume_specification[ u8::reverse_bits ](x: u8) -> (r: u8)
    ensures
        r == reversed(x),
;

/// The byte of a word of the receive FIFO: its low eight bits, first received
/// bit highest.
pub open spec fn decoded(word: u32) -> u8 {
    reversed((word & 0xFF) as u8)
}

/// Returns the byte of a word of the receive FIFO.
pub fn decode(word: u32) -> (byte: u8)
    ensures
        byte == decoded(word),
        forall|i: u32| i < 8 ==> #[trigger] (byte as u32 >> i) & 1 == (word >> ((7 - i) as u32)) & 1,
{
    proof {
        assert forall|i: u32| i < 8 implies #[trigger] (decoded(word) as u32 >> i) & 1 == (word >> ((7
            - i) as u32)) & 1 by {
            law_decoded_bits(word, i);
        }
    }
    let low: u8 = (word & 0xFF) as u8;
    low.reverse_bits()
}

/// The line level while bit `i` of a character is sent: the shift register
/// gives its bits one by one from the end that `direction` shifts towards.
pub open spec fn shifted_out(direction: ShiftDirection, word: u32, i: u32) -> u32 {
    match direction {
        ShiftDirection::Right => (word >> i) & 1,
        ShiftDirection::Left => (word >> ((31 - i) as u32)) & 1,
    }
}

/// The shift register after it has taken one more bit.
pub open spec fn shifted_in(direction: ShiftDirection, register: u32, level: u32) -> u32 {
    match direction {
        ShiftDirection::Right => (register >> 1) | (level << 31),
        ShiftDirection::Left => (register << 1) | level,
    }
}

/// The receiving shift register, empty at first, after it has taken the first
/// `n` bits of a character that was sent from `word`.
pub open spec fn looped(
    sender: ShiftDirection,
    receiver: ShiftDirection,
    word: u32,
    n: nat,
) -> u32
    decreases n,
{
    if n == 0 {
        0
    } else {
        shifted_in(
            receiver,
            looped(sender, receiver, word, (n - 1) as nat),
            shifted_out(sender, word, (n - 1) as u32),
        )
    }
}

/// Bit `i` of the reversed byte is bit `7 - i` of the byte.
pub proof fn law_reversed(x: u8, i: u8)
    requires
        i < 8,
    ensures
        (reversed(x) >> i) & 1 == (x >> ((7 - i) as u8)) & 1,
        reversed(reversed(x)) == x,
{
    let y = reversed(x);
    let j = (7 - i) as u8;
    assert((y >> i) & 1 == (x >> j) & 1) by (bit_vector)
        requires
            i < 8,
            j == 7 - i,
            y == ((x & 0x01) << 7) | ((x & 0x02) << 5) | ((x & 0x04) << 3) | ((x & 0x08) << 1) | ((x
                & 0x10) >> 1) | ((x & 0x20) >> 3) | ((x & 0x40) >> 5) | ((x & 0x80) >> 7),
    ;
    let z = reversed(y);
    assert(z == x) by (bit_vector)
        requires
            y == ((x & 0x01) << 7) | ((x & 0x02) << 5) | ((x & 0x04) << 3) | ((x & 0x08) << 1) | ((x
                & 0x10) >> 1) | ((x & 0x20) >> 3) | ((x & 0x40) >> 5) | ((x & 0x80) >> 7),
            z == ((y & 0x01) << 7) | ((y & 0x02) << 5) | ((y & 0x04) << 3) | ((y & 0x08) << 1) | ((y
                & 0x10) >> 1) | ((y & 0x20) >> 3) | ((y & 0x40) >> 5) | ((y & 0x80) >> 7),
    ;
}

/// The byte of a word of the receive FIFO has the eight low bits of the word
/// in opposite order, whatever lies above them.
pub proof fn law_decoded_bits(word: u32, i: u32)
    requires
        i < 8,
    ensures
        (decoded(word) as u32 >> i) & 1 == (word >> ((7 - i) as u32)) & 1,
{
    let low = (word & 0xFF) as u8;
    let byte = decoded(word);
    let j = i as u8;
    let k = (7 - j) as u8;
    let m = (7 - i) as u32;
    law_reversed(low, j);
    assert((byte as u32 >> i) & 1 == (word >> m) & 1) by (bit_vector)
        requires
            low == (word & 0xFF) as u8,
            i < 8,
            j == i as u8,
            k == 7 - j,
            m == 7 - i,
            (byte >> j) & 1 == (low >> k) & 1,
    ;
}

/// What one end sends is what the other receives: the word that a transmitter
/// shifts out to the right, eight bits of it, is decoded by a receiver that
/// shifts them in to the left as the byte that the word was made from.
pub proof fn law_sent_byte_is_received(byte: u8)
    ensures
        decoded(looped(ShiftDirection::Right, ShiftDirection::Left, byte as u32, 8)) == byte,
{
    reveal_with_fuel(looped, 9);
    let w = byte as u32;
    let r1 = looped(ShiftDirection::Right, ShiftDirection::Left, w, 1);
    let r2 = looped(ShiftDirection::Right, ShiftDirection::Left, w, 2);
    let r3 = looped(ShiftDirection::Right, ShiftDirection::Left, w, 3);
    let r4 = looped(ShiftDirection::Right, ShiftDirection::Left, w, 4);
    let r5 = looped(ShiftDirection::Right, ShiftDirection::Left, w, 5);
    let r6 = looped(ShiftDirection::Right, ShiftDirection::Left, w, 6);
    let r7 = looped(ShiftDirection::Right, ShiftDirection::Left, w, 7);
    let r8 = looped(ShiftDirection::Right, ShiftDirection::Left, w, 8);
    let x = (r8 & 0xFF) as u8;
    assert(reversed(x) == byte) by (bit_vector)
        requires
            w == byte as u32,
            x == (r8 & 0xFF) as u8,
            r1 == (0u32 << 1) | ((w >> 0) & 1),
            r2 == (r1 << 1) | ((w >> 1) & 1),
            r3 == (r2 << 1) | ((w >> 2) & 1),
            r4 == (r3 << 1) | ((w >> 3) & 1),
            r5 == (r4 << 1) | ((w >> 4) & 1),
            r6 == (r5 << 1) | ((w >> 5) & 1),
            r7 == (r6 << 1) | ((w >> 6) & 1),
            r8 == (r7 << 1) | ((w >> 7) & 1),
    ;
}

} // verus!
