//! Variable-precision integers: what their fields look like on the wire.
//!
//! A value travels as a flag field that names a tier, then the value in the
//! tier's width. A signed value spends the first bit of that width on the
//! sign; the bits after it hold the value itself when it is not negative,
//! and its distance from the tier's minimum when it is.

use vstd::prelude::*;
use vstd::arithmetic::power2::{pow2, lemma_pow2_unfold, lemma_pow2_pos};
use crate::constants::{MTU_BYTES, MTU_BITS, ONE_BIT};
use crate::bits::{bits_of, value_of, overwrite, lemma_bits_of_len, lemma_value_of_bits_of,
    lemma_value_of_bound, lemma_overwrite_twice};
use crate::buffer::{BitBuffer, BitInput, input_bits, read_spec, read_value_with_length,
    write_value_with_length};
use crate::error::ParseError;

verus! {

/// The least value of a signed field `width` bits wide.
pub open spec fn least_of_width(width: nat) -> int {
    -(pow2((width - 1) as nat) as int)
}

/// What the bits after the sign bit hold.
pub open spec fn magnitude(width: nat, value: int) -> nat {
    if value < 0 {
        (value - least_of_width(width)) as nat
    } else {
        value as nat
    }
}

/// The value that a sign bit and a magnitude stand for.
pub open spec fn signed_value(width: nat, negative: bool, magnitude: nat) -> int {
    if negative {
        magnitude + least_of_width(width)
    } else {
        magnitude as int
    }
}

/// A signed field on the wire: the sign bit, then the magnitude.
pub open spec fn signed_bits(width: nat, value: int) -> Seq<bool> {
    seq![value < 0] + bits_of(magnitude(width, value), (width - 1) as nat)
}

/// An unsigned variable-precision integer on the wire.
pub open spec fn unsigned_wire(flag_width: nat, flag: nat, width: nat, value: nat) -> Seq<bool> {
    bits_of(flag, flag_width) + bits_of(value, width)
}

/// A signed variable-precision integer on the wire.
pub open spec fn signed_wire(flag_width: nat, flag: nat, width: nat, value: int) -> Seq<bool> {
    bits_of(flag, flag_width) + signed_bits(width, value)
}

/// What reading a signed field of `width` bits at `at` gives.
pub open spec fn read_signed_spec(bits: Seq<bool>, at: int, width: nat) -> Result<
    (int, int),
    ParseError,
> {
    if at + width <= bits.len() {
        Ok(
            (
                signed_value(
                    width,
                    bits[at],
                    value_of(bits.subrange(at + 1, at + width)),
                ),
                at + width,
            ),
        )
    } else {
        Err(ParseError::EndOfInput)
    }
}

pub proof fn lemma_one_bit(value: nat)
    ensures
        bits_of(value, 1) == seq![value % 2 == 1],
        value_of(seq![true]) == 1,
        value_of(seq![false]) == 0,
{
    reveal_with_fuel(bits_of, 2);
    reveal_with_fuel(value_of, 2);
    assert(bits_of(value, 1) == seq![value % 2 == 1]);
    assert(seq![true].drop_last() == Seq::<bool>::empty());
    assert(seq![false].drop_last() == Seq::<bool>::empty());
}

/// A signed field is as wide as it says, and its magnitude fits.
pub proof fn lemma_signed_bits(width: nat, value: int)
    requires
        width >= 1,
        least_of_width(width) <= value < -least_of_width(width),
    ensures
        signed_bits(width, value).len() == width,
        magnitude(width, value) < pow2((width - 1) as nat),
{
    lemma_bits_of_len(magnitude(width, value), (width - 1) as nat);
}

/// Reading where an unsigned value was written gives it back.
pub proof fn lemma_read_written(bits: Seq<bool>, at: int, width: nat, value: nat)
    requires
        0 <= at,
        at + width <= bits.len(),
        value < pow2(width),
        bits.subrange(at, at + width) == bits_of(value, width),
    ensures
        read_spec(bits, at, width as int) == Ok::<(nat, int), ParseError>((value, at + width)),
{
    lemma_value_of_bits_of(value, width);
}

/// Reading where a signed value was written gives it back.
pub proof fn lemma_read_signed_written(bits: Seq<bool>, at: int, width: nat, value: int)
    requires
        0 <= at,
        width >= 1,
        at + width <= bits.len(),
        least_of_width(width) <= value < -least_of_width(width),
        bits.subrange(at, at + width) == signed_bits(width, value),
    ensures
        read_signed_spec(bits, at, width) == Ok::<(int, int), ParseError>((value, at + width)),
{
    let field = bits.subrange(at, at + width);
    let m = magnitude(width, value);
    lemma_bits_of_len(m, (width - 1) as nat);
    lemma_value_of_bits_of(m, (width - 1) as nat);
    assert(field[0] == (value < 0));
    assert(bits[at] == field[0]);
    assert(bits.subrange(at + 1, at + width) == field.subrange(1, width as int));
    assert(field.subrange(1, width as int) == bits_of(m, (width - 1) as nat));
}

/// Writes a signed field of `width` bits: the sign, then the magnitude.
pub fn write_signed_value(
    buf: &mut BitBuffer,
    cursor: usize,
    width: usize,
    min_value: i32,
    value: i32,
) -> (next: usize)
    requires
        2 <= width <= 32,
        min_value == least_of_width(width as nat),
        min_value <= value < -min_value,
        cursor + width <= MTU_BITS,
    ensures
        next == cursor + width,
        final(buf)@ == overwrite(old(buf)@, cursor as int, signed_bits(width as nat, value as int)),
{
    let sign: u32 = if value < 0 { 1 } else { 0 };
    let field_value: i32 = if value < 0 { value - min_value } else { value };
    let after_sign = write_value_with_length(buf, cursor, ONE_BIT, sign);
    let next = write_value_with_length(buf, after_sign, width - 1, field_value as u32);
    proof {
        lemma_one_bit(sign as nat);
        lemma_bits_of_len(field_value as nat, (width - 1) as nat);
        lemma_overwrite_twice(
            old(buf)@,
            cursor as int,
            seq![value < 0],
            bits_of(field_value as nat, (width - 1) as nat),
        );
    }
    next
}

/// Reads a signed field of `width` bits.
pub fn read_signed_value<'a>(input: BitInput<'a>, width: usize, min_value: i32) -> (res: Result<
    (BitInput<'a>, i32),
    ParseError,
>)
    requires
        2 <= width <= 32,
        min_value == least_of_width(width as nat),
        input.0@.len() <= MTU_BYTES,
    ensures
        match read_signed_spec(input_bits(input), input.1 as int, width as nat) {
            Ok((value, next)) => res == Ok::<(BitInput<'a>, i32), ParseError>(
                ((input.0, next as usize), value as i32),
            ) && least_of_width(width as nat) <= value < -least_of_width(width as nat),
            Err(e) => res == Err::<(BitInput<'a>, i32), ParseError>(e),
        },
{
    let ghost bits = input_bits(input);
    let ghost at = input.1 as int;
    if input.1 / 8 >= input.0.len() || input.0.len() * 8 - input.1 < width {
        return Err(ParseError::EndOfInput);
    }
    let (after_sign, sign) = match read_value_with_length(input, ONE_BIT) {
        Ok(r) => r,
        Err(e) => { return Err(e); },
    };
    let (rest, field_value) = match read_value_with_length(after_sign, width - 1) {
        Ok(r) => r,
        Err(e) => { return Err(e); },
    };
    proof {
        let one = bits.subrange(at, at + 1);
        assert(one == seq![bits[at]]);
        lemma_one_bit(0);
        lemma_value_of_bound(bits.subrange(at + 1, at + width));
        lemma_pow2_unfold(width as nat);
        lemma_pow2_pos((width - 1) as nat);
        crate::bits::lemma_pow2_32();
        if width < 32 {
            vstd::arithmetic::power2::lemma_pow2_strictly_increases((width - 1) as nat, 31);
        }
    }
    let value: i32 = if sign == 1 { field_value as i32 + min_value } else { field_value as i32 };
    Ok((rest, value))
}

/// An unsigned variable-precision integer reads back as it was written.
pub proof fn lemma_unsigned_round_trip(
    bits: Seq<bool>,
    at: int,
    flag_width: nat,
    flag: nat,
    width: nat,
    value: nat,
)
    requires
        0 <= at,
        at + flag_width + width <= bits.len(),
        flag < pow2(flag_width),
        value < pow2(width),
        bits.subrange(at, at + flag_width + width) == unsigned_wire(flag_width, flag, width, value),
    ensures
        unsigned_wire(flag_width, flag, width, value).len() == flag_width + width,
        read_spec(bits, at, flag_width as int) == Ok::<(nat, int), ParseError>(
            (flag, at + flag_width),
        ),
        read_spec(bits, at + flag_width, width as int) == Ok::<(nat, int), ParseError>(
            (value, at + flag_width + width),
        ),
{
    let wire = bits.subrange(at, at + flag_width + width);
    lemma_bits_of_len(flag, flag_width);
    lemma_bits_of_len(value, width);
    assert(bits.subrange(at, at + flag_width) == wire.subrange(0, flag_width as int));
    assert(wire.subrange(0, flag_width as int) == bits_of(flag, flag_width));
    assert(bits.subrange(at + flag_width, at + flag_width + width) == wire.subrange(
        flag_width as int,
        (flag_width + width) as int,
    ));
    assert(wire.subrange(flag_width as int, (flag_width + width) as int) == bits_of(value, width));
    lemma_read_written(bits, at, flag_width, flag);
    lemma_read_written(bits, at + flag_width, width, value);
}

/// A signed variable-precision integer reads back as it was written.
pub proof fn lemma_signed_round_trip(
    bits: Seq<bool>,
    at: int,
    flag_width: nat,
    flag: nat,
    width: nat,
    value: int,
)
    requires
        0 <= at,
        width >= 1,
        at + flag_width + width <= bits.len(),
        flag < pow2(flag_width),
        least_of_width(width) <= value < -least_of_width(width),
        bits.subrange(at, at + flag_width + width) == signed_wire(flag_width, flag, width, value),
    ensures
        signed_wire(flag_width, flag, width, value).len() == flag_width + width,
        read_spec(bits, at, flag_width as int) == Ok::<(nat, int), ParseError>(
            (flag, at + flag_width),
        ),
        read_signed_spec(bits, at + flag_width, width) == Ok::<(int, int), ParseError>(
            (value, at + flag_width + width),
        ),
{
    let wire = bits.subrange(at, at + flag_width + width);
    lemma_bits_of_len(flag, flag_width);
    lemma_signed_bits(width, value);
    assert(bits.subrange(at, at + flag_width) == wire.subrange(0, flag_width as int));
    assert(wire.subrange(0, flag_width as int) == bits_of(flag, flag_width));
    assert(bits.subrange(at + flag_width, at + flag_width + width) == wire.subrange(
        flag_width as int,
        (flag_width + width) as int,
    ));
    assert(wire.subrange(flag_width as int, (flag_width + width) as int) == signed_bits(
        width,
        value,
    ));
    lemma_read_written(bits, at, flag_width, flag);
    lemma_read_signed_written(bits, at + flag_width, width, value);
}

} // verus!
