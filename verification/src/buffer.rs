//! The bit buffer: a fixed array of bits, one datagram long, and the two
//! operations on it. A cursor counts bits from the start and is handed in and
//! out of every operation; the buffer keeps no position of its own.

use vstd::prelude::*;
use vstd::slice::slice_subrange;
use bitvec::array::BitArray;
use bitvec::order::Msb0;
use bitvec::field::BitField;
use crate::constants::{MTU_BYTES, MTU_BITS};
use crate::bits::{bits_of, value_of, bytes_bits, overwrite};
use crate::error::ParseError;

verus! {

/// A datagram's worth of bits. Bit 0 is the most significant bit of byte 0.
///
/// The bits live in a `bitvec::array::BitArray` over `MTU_BYTES` bytes in
/// `Msb0` order. The verifier does not look into it: what it knows of a
/// buffer is what the contracts of `zeroed`, `raw_bytes` and `store_be_at`
/// say of `buffer_bits`.
#[verifier::external_body]
pub struct BitBuffer {
    bits: BitArray<[u8; MTU_BYTES], Msb0>,
}

/// The bits that a buffer holds, in index order.
pub uninterp spec fn buffer_bits(buf: BitBuffer) -> Seq<bool>;

impl View for BitBuffer {
    type V = Seq<bool>;

    /// The buffer as exactly `MTU_BITS` bits.
    open spec fn view(&self) -> Seq<bool> {
        Seq::new(MTU_BITS as nat, |i: int| buffer_bits(*self)[i])
    }
}

/// `bitvec::array::BitArray::ZERO`: an array with every bit clear.
#[verifier::external_body]
fn zeroed() -> (buf: BitBuffer)
    ensures
        buffer_bits(buf) == Seq::new(MTU_BITS as nat, |i: int| false),
{
    BitBuffer { bits: BitArray::ZERO }
}

/// `bitvec::array::BitArray::as_raw_slice`: the bytes under the bits. With
/// `Msb0` order, bit `i` of the array is bit `7 - i % 8` of byte `i / 8`.
#[verifier::external_body]
fn raw_bytes(buf: &BitBuffer) -> (bytes: &[u8])
    ensures
        bytes@.len() == MTU_BYTES,
        bytes_bits(bytes@) == buf@,
{
    buf.bits.as_raw_slice()
}

/// `bitvec::field::BitField::store_be` on the bits `start..end` of the
/// array: the `end - start` low bits of `value` replace them, the most
/// significant first, and no other bit changes. It panics on an empty range,
/// on one wider than `value`, and on one that leaves the array.
#[verifier::external_body]
fn store_be_at(buf: &mut BitBuffer, start: usize, end: usize, value: u32)
    requires
        start < end <= MTU_BITS,
        end - start <= 32,
    ensures
        final(buf)@ == overwrite(
            old(buf)@,
            start as int,
            bits_of(value as nat, (end - start) as nat),
        ),
{
    buf.bits[start..end].store_be(value);
}

/// `nom::Err`, the error of a nom parser. It is handed on and never looked
/// into.
#[verifier::external_type_specification]
#[verifier::external_body]
#[verifier::reject_recursive_types(E)]
pub struct ExNomErr<E>(nom::Err<E>);

/// `nom::error::Error`, what a `nom::Err` holds by default. It is handed on
/// and never looked into.
#[verifier::external_type_specification]
#[verifier::external_body]
#[verifier::reject_recursive_types(I)]
pub struct ExNomError<I>(nom::error::Error<I>);

/// `nom::bits::complete::take`: `count` bits of `input` from bit
/// `bit_offset` of its first byte on, as a number, most significant bit
/// first; with them the input from the byte that holds the next bit on, and
/// that bit's place in it. It fails when the input holds fewer bits.
#[verifier::external_body]
fn take_bits<'a>(input: &'a [u8], bit_offset: usize, count: usize) -> (res: Result<
    ((&'a [u8], usize), u32),
    nom::Err<nom::error::Error<(&'a [u8], usize)>>,
>)
    requires
        bit_offset < 8,
        0 < count <= 32,
        input@.len() <= MTU_BYTES,
    ensures
        res is Ok <==> bit_offset + count <= 8 * input@.len(),
        res matches Ok(((rest, offset), value)) ==> {
            &&& rest@ == input@.skip((bit_offset + count) / 8)
            &&& offset == (bit_offset + count) % 8
            &&& value == value_of(
                bytes_bits(input@).subrange(bit_offset as int, bit_offset + count),
            )
        },
{
    nom::bits::complete::take(count)((input, bit_offset))
}

/// Where a parser stands: the bytes of a datagram and a cursor into them,
/// counted in bits from the first byte's most significant bit.
pub type BitInput<'a> = (&'a [u8], usize);

/// The bits that a parser's input holds.
pub open spec fn input_bits(input: BitInput) -> Seq<bool> {
    bytes_bits(input.0@)
}

/// What reading `length` bits at `at` gives: their value and the position
/// after them, or the end of the input.
pub open spec fn read_spec(bits: Seq<bool>, at: int, length: int) -> Result<
    (nat, int),
    ParseError,
> {
    if at + length <= bits.len() {
        Ok((value_of(bits.subrange(at, at + length)), at + length))
    } else {
        Err(ParseError::EndOfInput)
    }
}

impl BitBuffer {
    /// A buffer with every bit clear.
    pub fn new() -> (buf: BitBuffer)
        ensures
            buf@ == Seq::new(MTU_BITS as nat, |i: int| false),
    {
        zeroed()
    }

    /// The buffer's bytes.
    pub fn as_raw_slice(&self) -> (bytes: &[u8])
        ensures
            bytes@.len() == MTU_BYTES,
            bytes_bits(bytes@) == self@,
    {
        raw_bytes(self)
    }
}

/// Writes the `length` low bits of `value` at `cursor`, most significant bit
/// first, and returns the cursor after them.
pub fn write_value_with_length(
    buf: &mut BitBuffer,
    cursor: usize,
    length: usize,
    value: u32,
) -> (next: usize)
    requires
        0 < length <= 32,
        cursor + length <= MTU_BITS,
    ensures
        next == cursor + length,
        final(buf)@ == overwrite(old(buf)@, cursor as int, bits_of(value as nat, length as nat)),
{
    let next = cursor + length;
    store_be_at(buf, cursor, next, value);
    next
}

/// Reads `length` bits at the input's cursor as a number, most significant
/// bit first, and moves the cursor past them.
pub fn read_value_with_length<'a>(input: BitInput<'a>, length: usize) -> (res: Result<
    (BitInput<'a>, u32),
    ParseError,
>)
    requires
        0 < length <= 32,
        input.0@.len() <= MTU_BYTES,
    ensures
        match read_spec(input_bits(input), input.1 as int, length as int) {
            Ok((value, next)) => res == Ok::<(BitInput<'a>, u32), ParseError>(
                ((input.0, next as usize), value as u32),
            ),
            Err(e) => res == Err::<(BitInput<'a>, u32), ParseError>(e),
        },
{
    let (bytes, cursor) = input;
    let first = cursor / 8;
    let offset = cursor % 8;
    if first >= bytes.len() {
        return Err(ParseError::EndOfInput);
    }
    let window = slice_subrange(bytes, first, bytes.len());
    proof {
        lemma_window_bits(bytes@, first as int, offset as int, length as int);
    }
    match take_bits(window, offset, length) {
        Ok((_, value)) => {
            proof {
                crate::bits::lemma_value_of_bound(
                    input_bits(input).subrange(cursor as int, cursor + length),
                );
                vstd::arithmetic::power2::lemma2_to64();
                vstd::arithmetic::power2::lemma_pow2_strictly_increases(length as nat, 33);
            }
            Ok(((bytes, cursor + length), value))
        },
        Err(_) => Err(ParseError::EndOfInput),
    }
}

/// Reads `length` bits of the buffer at `cursor` as a number, most
/// significant bit first, and returns the cursor after them with it.
pub fn read_from_buffer(buf: &BitBuffer, cursor: usize, length: usize) -> (res: (usize, u32))
    requires
        0 < length <= 32,
        cursor + length <= MTU_BITS,
    ensures
        res.0 == cursor + length,
        res.1 == value_of(buf@.subrange(cursor as int, cursor + length)),
{
    proof {
        crate::bits::lemma_value_of_bound(buf@.subrange(cursor as int, cursor + length));
        vstd::arithmetic::power2::lemma2_to64();
        vstd::arithmetic::power2::lemma_pow2_strictly_increases(length as nat, 33);
    }
    match read_value_with_length((buf.as_raw_slice(), cursor), length) {
        Ok(((_, next), value)) => (next, value),
        Err(_) => (cursor + length, 0),
    }
}

/// The bits of a tail of the bytes are a tail of the bits.
proof fn lemma_window_bits(bytes: Seq<u8>, first: int, offset: int, length: int)
    requires
        0 <= first < bytes.len(),
        0 <= offset < 8,
        0 <= length,
    ensures
        offset + length <= 8 * (bytes.len() - first) ==> bytes_bits(
            bytes.subrange(first, bytes.len() as int),
        ).subrange(offset, offset + length) == bytes_bits(bytes).subrange(
            8 * first + offset,
            8 * first + offset + length,
        ),
{
    if offset + length <= 8 * (bytes.len() - first) {
        let tail = bytes.subrange(first, bytes.len() as int);
        let a = bytes_bits(tail).subrange(offset, offset + length);
        let b = bytes_bits(bytes).subrange(8 * first + offset, 8 * first + offset + length);
        assert(a.len() == b.len());
        assert forall|i: int| 0 <= i < a.len() implies a[i] == b[i] by {
            let j = offset + i;
            assert((8 * first + j) / 8 == first + j / 8);
            assert((8 * first + j) % 8 == j % 8);
            assert(tail[j / 8] == bytes[first + j / 8]);
        }
        assert(a == b);
    }
}

} // verus!
