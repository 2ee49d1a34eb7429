//! From the system clock and the baud rate to divisors and delays.
use crate::config::InitError;
use vstd::arithmetic::div_mod::{
    lemma_div_is_ordered, lemma_div_is_ordered_by_denominator, lemma_fundamental_div_mod,
    lemma_fundamental_div_mod_converse,
};
use vstd::prelude::*;

verus! {

/// PIO cycles that the programs spend on one bit.
pub const CYCLES_PER_BIT: u64 = 8;

/// The clock divisor in units of 1/256, rounded down.
pub open spec fn divisor(clock_hz: u32, baud: u32) -> int {
    (clock_hz * 256) / (baud * 8)
}

/// The integer part of the divisor, in the sixteen bits of its register.
pub open spec fn divisor_int(clock_hz: u32, baud: u32) -> int {
    (divisor(clock_hz, baud) / 256) % 0x1_0000
}

/// The fractional part of the divisor, in units of 1/256.
pub open spec fn divisor_frac(clock_hz: u32, baud: u32) -> int {
    divisor(clock_hz, baud) % 256
}

/// The baud rate is not zero and the divisor registers are not both zero.
pub open spec fn divisible(clock_hz: u32, baud: u32) -> bool {
    baud != 0 && !(divisor_int(clock_hz, baud) == 0 && divisor_frac(clock_hz, baud) == 0)
}

/// `x` raised to 1 where it is 0.
pub open spec fn at_least_one(x: int) -> int {
    if x < 1 {
        1
    } else {
        x
    }
}

/// `x` cut down to the largest `u32`.
pub open spec fn at_most_u32(x: int) -> int {
    if x > u32::MAX {
        u32::MAX as int
    } else {
        x
    }
}

/// The system clock cycles of one character of `frame_bits` bits, rounded
/// down, but at least one and at most what a `u32` holds.
pub open spec fn char_cycles(clock_hz: u32, frame_bits: u32, baud: u32) -> int {
    at_most_u32(
        at_least_one((clock_hz * at_least_one(frame_bits as int)) / at_least_one(baud as int)),
    )
}

/// Computes the clock divisor of a state machine that spends eight cycles on
/// each bit: the integer part and the fraction in units of 1/256.
///
/// The integer part keeps its low sixteen bits, as its register does.
pub fn calc_clkdiv(clock_hz: u32, baud: u32) -> (result: Result<(u16, u8), InitError>)
    ensures
        result is Ok <==> divisible(clock_hz, baud),
        result is Err ==> result->Err_0 == InitError::InvalidBaud,
        result is Ok ==> result->Ok_0.0 == divisor_int(clock_hz, baud),
        result is Ok ==> result->Ok_0.1 == divisor_frac(clock_hz, baud),
        result is Ok <==> baud != 0 && ((clock_hz * 256) / (baud * 8)) % 0x100_0000 != 0,
        result is Ok ==> result->Ok_0.0 * 256 + result->Ok_0.1 == ((clock_hz * 256) / (baud * 8))
            % 0x100_0000,
{
    if baud == 0 {
        return Err(InitError::InvalidBaud);
    }
    let denom: u64 = (baud as u64) * CYCLES_PER_BIT;
    let scaled: u64 = (clock_hz as u64) << 8;
    assert(scaled == clock_hz * 256) by (bit_vector)
        requires
            scaled == (clock_hz as u64) << 8,
    ;
    let div: u64 = scaled / denom;
    let whole: u16 = #[verifier::truncate] ((div >> 8) as u16);
    let frac: u8 = #[verifier::truncate] ((div & 0xFF) as u8);
    assert(whole == (div / 256) % 0x1_0000) by (bit_vector)
        requires
            whole == (div >> 8) as u16,
    ;
    assert(frac == div % 256) by (bit_vector)
        requires
            frac == (div & 0xFF) as u8,
    ;
    assert(div == divisor(clock_hz, baud));
    proof {
        law_registers_make_up_the_quotient(clock_hz, baud);
    }
    if whole == 0 && frac == 0 {
        return Err(InitError::InvalidBaud);
    }
    Ok((whole, frac))
}

/// Computes how many system clock cycles one character takes on the line.
pub fn calc_char_delay_cycles(clock_hz: u32, frame_bits: u32, baud: u32) -> (cycles: u32)
    ensures
        cycles == char_cycles(clock_hz, frame_bits, baud),
        cycles >= 1,
        ({
            let bits = if frame_bits < 1 { 1 } else { frame_bits as int };
            let rate = if baud < 1 { 1 } else { baud as int };
            &&& cycles > 1 ==> cycles * rate <= clock_hz * bits
            &&& cycles < u32::MAX ==> clock_hz * bits < (cycles + 1) * rate
        }),
{
    let bits: u64 = if frame_bits < 1 { 1 } else { frame_bits as u64 };
    let rate: u64 = if baud < 1 { 1 } else { baud as u64 };
    assert(clock_hz * bits <= u32::MAX * u32::MAX) by (nonlinear_arith)
        requires
            clock_hz <= u32::MAX,
            bits <= u32::MAX,
    ;
    assert(0 <= clock_hz * bits) by (nonlinear_arith);
    let cycles: u64 = (clock_hz as u64) * bits / rate;
    proof {
        law_char_cycles_bounds(clock_hz, frame_bits, baud);
    }
    if cycles < 1 {
        1
    } else if cycles > u32::MAX as u64 {
        u32::MAX
    } else {
        cycles as u32
    }
}

/// The divisor is the exact quotient rounded down: the bit time that it gives
/// is never longer than asked for, and one more 1/256 would make it longer.
pub proof fn law_divisor_rounds_down(clock_hz: u32, baud: u32)
    requires
        baud != 0,
    ensures
        (baud * 8) * divisor(clock_hz, baud) <= clock_hz * 256,
        clock_hz * 256 < (baud * 8) * (divisor(clock_hz, baud) + 1),
{
    lemma_fundamental_div_mod(clock_hz * 256, baud * 8);
    let d = baud * 8;
    let q = divisor(clock_hz, baud);
    assert(d * (q + 1) == d * q + d) by (nonlinear_arith);
}

/// Where a bit takes less than 8 * 65536 system clock cycles, the divisor fits
/// its two registers.
pub(crate) proof fn lemma_quotient_fits(clock_hz: u32, baud: u32)
    requires
        baud != 0,
        clock_hz < baud * 8 * 0x1_0000,
    ensures
        0 <= divisor(clock_hz, baud) < 0x100_0000,
{
    law_divisor_rounds_down(clock_hz, baud);
    let d = baud * 8;
    let q = divisor(clock_hz, baud);
    assert(0 <= q < 0x100_0000) by (nonlinear_arith)
        requires
            d > 0,
            d * q <= clock_hz * 256,
            0 <= clock_hz * 256 < d * (q + 1),
            clock_hz < d * 0x1_0000,
    ;
}

/// Where a bit takes at least 1/32 of a system clock cycle and less than
/// 8 * 65536 of them, a divisor exists and its two registers hold it whole.
pub proof fn law_registers_hold_the_divisor(clock_hz: u32, baud: u32)
    requires
        baud != 0,
        baud * 8 <= clock_hz * 256,
        clock_hz < baud * 8 * 0x1_0000,
    ensures
        divisible(clock_hz, baud),
        divisor_int(clock_hz, baud) * 256 + divisor_frac(clock_hz, baud) == divisor(
            clock_hz,
            baud,
        ),
{
    law_divisor_rounds_down(clock_hz, baud);
    lemma_quotient_fits(clock_hz, baud);
    let d = baud * 8;
    let q = divisor(clock_hz, baud);
    assert(q >= 1) by (nonlinear_arith)
        requires
            d > 0,
            d <= clock_hz * 256,
            clock_hz * 256 < d * (q + 1),
    ;
}

/// The cycles of a character are the exact quotient rounded down, wherever
/// that is neither zero nor more than a `u32` holds.
pub proof fn law_char_cycles_round_down(clock_hz: u32, frame_bits: u32, baud: u32)
    requires
        frame_bits != 0,
        baud != 0,
        baud <= clock_hz * frame_bits < baud * 0x1_0000_0000,
    ensures
        char_cycles(clock_hz, frame_bits, baud) * baud <= clock_hz * frame_bits,
        clock_hz * frame_bits < (char_cycles(clock_hz, frame_bits, baud) + 1) * baud,
{
    let n = clock_hz * frame_bits;
    let d = baud as int;
    let q = n / d;
    lemma_fundamental_div_mod(n, d);
    assert(q * d == d * q && (q + 1) * d == d * q + d) by (nonlinear_arith);
    assert(1 <= q < 0x1_0000_0000) by (nonlinear_arith)
        requires
            d > 0,
            d <= n,
            n < d * 0x1_0000_0000,
            d * q <= n,
            n < d * q + d,
    ;
}

/// The cycles of a character are the exact quotient rounded down, raised to
/// one where that is zero and cut down where a `u32` cannot hold it. A
/// character of no bits counts as one of one bit, and a baud rate of zero as
/// one of one.
pub proof fn law_char_cycles_bounds(clock_hz: u32, frame_bits: u32, baud: u32)
    ensures
        1 <= char_cycles(clock_hz, frame_bits, baud) <= u32::MAX,
        ({
            let cycles = char_cycles(clock_hz, frame_bits, baud);
            let bits = if frame_bits < 1 { 1 } else { frame_bits as int };
            let rate = if baud < 1 { 1 } else { baud as int };
            &&& cycles > 1 ==> cycles * rate <= clock_hz * bits
            &&& cycles < u32::MAX ==> clock_hz * bits < (cycles + 1) * rate
        }),
{
    let cycles = char_cycles(clock_hz, frame_bits, baud);
    let n = clock_hz * at_least_one(frame_bits as int);
    let d = at_least_one(baud as int);
    let q = n / d;
    lemma_fundamental_div_mod(n, d);
    assert(q * d == d * q && (q + 1) * d == d * q + d) by (nonlinear_arith);
    assert(cycles > 1 ==> cycles * d <= n) by (nonlinear_arith)
        requires
            d >= 1,
            q * d <= n,
            cycles > 1 ==> cycles <= q,
    ;
    assert(cycles < u32::MAX ==> n < (cycles + 1) * d) by (nonlinear_arith)
        requires
            d >= 1,
            n < (q + 1) * d,
            cycles < u32::MAX ==> q <= cycles,
    ;
}

/// The two divisor registers hold the exact quotient, in units of 1/256 and
/// rounded down, without what lies above their twenty-four bits; a divisor
/// exists exactly where that is not zero.
pub proof fn law_registers_make_up_the_quotient(clock_hz: u32, baud: u32)
    requires
        baud != 0,
    ensures
        0 <= divisor_int(clock_hz, baud) < 0x1_0000,
        0 <= divisor_frac(clock_hz, baud) < 0x100,
        divisor_int(clock_hz, baud) * 256 + divisor_frac(clock_hz, baud) == ((clock_hz * 256) / (
        baud * 8)) % 0x100_0000,
        divisible(clock_hz, baud) <==> ((clock_hz * 256) / (baud * 8)) % 0x100_0000 != 0,
{
    law_divisor_rounds_down(clock_hz, baud);
    let q = divisor(clock_hz, baud);
    let d = baud * 8;
    assert(q >= 0) by (nonlinear_arith)
        requires
            d > 0,
            0 <= clock_hz * 256 < d * (q + 1),
    ;
}

/// The divisor depends on nothing but the ratio of the clock to the baud rate.
pub proof fn law_divisor_depends_on_the_ratio(
    clock_hz: u32,
    baud: u32,
    other_clock_hz: u32,
    other_baud: u32,
)
    requires
        baud != 0,
        other_baud != 0,
        clock_hz * other_baud == other_clock_hz * baud,
    ensures
        divisor(clock_hz, baud) == divisor(other_clock_hz, other_baud),
        divisible(clock_hz, baud) == divisible(other_clock_hz, other_baud),
{
    law_divisor_rounds_down(clock_hz, baud);
    let q = divisor(clock_hz, baud);
    let c = clock_hz as int;
    let b = baud as int;
    let oc = other_clock_hz as int;
    let ob = other_baud as int;
    assert(ob * 8 * q <= oc * 256 && oc * 256 < ob * 8 * (q + 1)) by (nonlinear_arith)
        requires
            b > 0,
            ob > 0,
            c * ob == oc * b,
            b * 8 * q <= c * 256,
            c * 256 < b * 8 * (q + 1),
    ;
    let rest = oc * 256 - ob * 8 * q;
    assert(ob * 8 * (q + 1) == ob * 8 * q + ob * 8) by (nonlinear_arith);
    assert(q * (ob * 8) == ob * 8 * q) by (nonlinear_arith);
    lemma_fundamental_div_mod_converse(oc * 256, ob * 8, q, rest);
}

/// A character takes no less time with a faster clock, with more bits or with
/// a lower baud rate.
pub proof fn law_char_cycles_grow(
    clock_hz: u32,
    frame_bits: u32,
    baud: u32,
    faster_clock_hz: u32,
    more_bits: u32,
    lower_baud: u32,
)
    requires
        clock_hz <= faster_clock_hz,
        frame_bits <= more_bits,
        lower_baud <= baud,
    ensures
        1 <= char_cycles(clock_hz, frame_bits, baud) <= char_cycles(
            faster_clock_hz,
            more_bits,
            lower_baud,
        ),
{
    let n = clock_hz * at_least_one(frame_bits as int);
    let m = faster_clock_hz * at_least_one(more_bits as int);
    let d = at_least_one(baud as int);
    let e = at_least_one(lower_baud as int);
    assert(0 <= n <= m) by (nonlinear_arith)
        requires
            n == clock_hz * at_least_one(frame_bits as int),
            m == faster_clock_hz * at_least_one(more_bits as int),
            clock_hz <= faster_clock_hz,
            1 <= at_least_one(frame_bits as int) <= at_least_one(more_bits as int),
    ;
    lemma_div_is_ordered(n, m, d);
    lemma_div_is_ordered_by_denominator(m, e, d);
}

} // verus!
