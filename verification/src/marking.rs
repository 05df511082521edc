//! The entity marking: a short run of character codes. The marking says how
//! many codes it holds and how wide each is; what character a code stands
//! for is left to the layers above.

use vstd::prelude::*;
use vstd::arithmetic::power2::{pow2, lemma2_to64};
use vstd::array::{spec_array_fill_for_copy_type, spec_array_update};
use crate::constants::{MTU_BYTES, MTU_BITS, ONE_BIT, FOUR_BITS};
use crate::bits::{bits_of, overwrite, lemma_bits_of_len, lemma_overwrite_twice,
    lemma_overwrite_nothing, lemma_split_written, lemma_value_of_bound};
use crate::buffer::{BitBuffer, BitInput, input_bits, read_spec, read_value_with_length,
    write_value_with_length};
use crate::codec::SerializeCdis;
use crate::error::ParseError;
use crate::varint::lemma_read_written;

verus! {

/// The most codes that a marking holds.
pub const MAX_MARKING_LENGTH: usize = 15;

/// How wide the codes of a marking are.
#[derive(Clone, Copy, Debug, PartialEq, Eq, Structural)]
pub enum CharEncoding {
    FiveBit,
    SixBit,
}

impl CharEncoding {
    /// The width of one code in bits.
    pub open spec fn width(self) -> nat {
        match self {
            CharEncoding::FiveBit => 5,
            CharEncoding::SixBit => 6,
        }
    }

    /// The encoding's flag on the wire.
    pub open spec fn flag(self) -> nat {
        match self {
            CharEncoding::FiveBit => 0,
            CharEncoding::SixBit => 1,
        }
    }

    /// The greatest code of the encoding.
    pub open spec fn max(self) -> nat {
        match self {
            CharEncoding::FiveBit => 31,
            CharEncoding::SixBit => 63,
        }
    }

    /// The encoding that a flag names.
    pub open spec fn of_flag(flag: nat) -> CharEncoding {
        if flag == 0 {
            CharEncoding::FiveBit
        } else {
            CharEncoding::SixBit
        }
    }

    pub fn bit_size(&self) -> (bits: usize)
        ensures
            bits == self.width(),
    {
        match self {
            CharEncoding::FiveBit => 5,
            CharEncoding::SixBit => 6,
        }
    }

    pub fn flag_bits_value(&self) -> (flag: u8)
        ensures
            flag == self.flag(),
    {
        match self {
            CharEncoding::FiveBit => 0,
            CharEncoding::SixBit => 1,
        }
    }

    pub fn max_value(&self) -> (max: u8)
        ensures
            max == self.max(),
    {
        match self {
            CharEncoding::FiveBit => 31,
            CharEncoding::SixBit => 63,
        }
    }

    pub fn from_flag(flag: u8) -> (encoding: CharEncoding)
        ensures
            encoding == CharEncoding::of_flag(flag as nat),
    {
        if flag == 0 {
            CharEncoding::FiveBit
        } else {
            CharEncoding::SixBit
        }
    }
}

/// A run of codes on the wire, each in `width` bits.
pub open spec fn codes_bits(codes: Seq<u8>, width: nat) -> Seq<bool>
    decreases codes.len(),
{
    if codes.len() == 0 {
        Seq::empty()
    } else {
        codes_bits(codes.drop_last(), width) + bits_of(codes.last() as nat, width)
    }
}

/// What reading `count` codes of `width` bits at `at` gives: the codes in
/// the first `count` places of an array of zeros, and the position after
/// them.
pub open spec fn read_codes_spec(bits: Seq<bool>, at: int, width: nat, count: nat) -> Result<
    ([u8; 15], int),
    ParseError,
>
    decreases count,
{
    if count == 0 {
        Ok((spec_array_fill_for_copy_type::<u8, 15>(0), at))
    } else {
        match read_codes_spec(bits, at, width, (count - 1) as nat) {
            Err(e) => Err(e),
            Ok((codes, at)) => match read_spec(bits, at, width as int) {
                Err(e) => Err(e),
                Ok((code, at)) => Ok((spec_array_update(codes, count - 1, code as u8), at)),
            },
        }
    }
}

/// A run of codes is as long as its codes are wide.
pub proof fn lemma_codes_bits_len(codes: Seq<u8>, width: nat)
    ensures
        codes_bits(codes, width).len() == codes.len() * width,
    decreases codes.len(),
{
    if codes.len() > 0 {
        lemma_codes_bits_len(codes.drop_last(), width);
        lemma_bits_of_len(codes.last() as nat, width);
        assert((codes.len() - 1) * width + width == codes.len() * width) by (nonlinear_arith);
    } else {
        assert(0 * width == 0) by (nonlinear_arith);
    }
}

/// One more code lengthens the run by its bits.
pub proof fn lemma_codes_bits_step(codes: Seq<u8>, width: nat, count: int)
    requires
        0 <= count < codes.len(),
    ensures
        codes_bits(codes.take(count + 1), width) == codes_bits(codes.take(count), width) + bits_of(
            codes[count] as nat,
            width,
        ),
{
    let longer = codes.take(count + 1);
    assert(longer.drop_last() == codes.take(count));
    assert(longer.last() == codes[count]);
}

/// Where the reading of some codes fails, the reading of more fails too.
pub proof fn lemma_codes_error(bits: Seq<bool>, at: int, width: nat, fewer: nat, count: nat)
    requires
        fewer <= count,
        read_codes_spec(bits, at, width, fewer) is Err,
    ensures
        read_codes_spec(bits, at, width, count) == Err::<([u8; 15], int), ParseError>(
            ParseError::EndOfInput,
        ),
    decreases count,
{
    lemma_codes_error_kind(bits, at, width, fewer);
    if fewer < count {
        lemma_codes_error(bits, at, width, fewer, (count - 1) as nat);
    }
}

proof fn lemma_codes_error_kind(bits: Seq<bool>, at: int, width: nat, count: nat)
    requires
        read_codes_spec(bits, at, width, count) is Err,
    ensures
        read_codes_spec(bits, at, width, count) == Err::<([u8; 15], int), ParseError>(
            ParseError::EndOfInput,
        ),
    decreases count,
{
    if count > 0 {
        if read_codes_spec(bits, at, width, (count - 1) as nat) is Err {
            lemma_codes_error_kind(bits, at, width, (count - 1) as nat);
        }
    }
}

/// Codes that were written read back: the first `count` places hold them,
/// and the others hold zero.
pub proof fn lemma_codes_round_trip(
    bits: Seq<bool>,
    at: int,
    width: nat,
    codes: Seq<u8>,
    count: nat,
)
    requires
        0 <= at,
        count <= codes.len(),
        count <= 15,
        forall|i: int| 0 <= i < count ==> (#[trigger] codes[i] as nat) < pow2(width),
        at + codes_bits(codes.take(count as int), width).len() <= bits.len(),
        bits.subrange(at, at + codes_bits(codes.take(count as int), width).len()) == codes_bits(
            codes.take(count as int),
            width,
        ),
    ensures
        match read_codes_spec(bits, at, width, count) {
            Ok((read, next)) => {
                &&& next == at + codes_bits(codes.take(count as int), width).len()
                &&& forall|i: int| 0 <= i < count ==> read@[i] == codes[i]
                &&& forall|i: int| count <= i < 15 ==> read@[i] == 0
            },
            Err(_) => false,
        },
    decreases count,
{
    broadcast use vstd::array::group_array_axioms;

    if count > 0 {
        let shorter = codes_bits(codes.take(count - 1), width);
        let last = bits_of(codes[count - 1] as nat, width);
        lemma_codes_bits_step(codes, width, count - 1);
        lemma_bits_of_len(codes[count - 1] as nat, width);
        lemma_split_written(bits, at, shorter, last);
        lemma_codes_round_trip(bits, at, width, codes, (count - 1) as nat);
        lemma_read_written(bits, at + shorter.len(), width, codes[count - 1] as nat);
    }
}

/// Writes the first `count` codes of `codes`, each in `width` bits.
pub fn write_codes(
    buf: &mut BitBuffer,
    cursor: usize,
    width: usize,
    codes: &[u8; 15],
    count: usize,
) -> (next: usize)
    requires
        1 <= width <= 8,
        count <= 15,
        cursor + count * width <= MTU_BITS,
    ensures
        next == cursor + count * width,
        final(buf)@ == overwrite(
            old(buf)@,
            cursor as int,
            codes_bits(codes@.take(count as int), width as nat),
        ),
{
    let mut next = cursor;
    let mut i: usize = 0;
    proof {
        lemma_overwrite_nothing(buf@, cursor as int);
        assert(codes@.take(0).len() == 0);
        assert(0 * width == 0) by (nonlinear_arith);
    }
    while i < count
        invariant
            1 <= width <= 8,
            i <= count <= 15,
            cursor + count * width <= MTU_BITS,
            next == cursor + i * width,
            buf@ == overwrite(
                old(buf)@,
                cursor as int,
                codes_bits(codes@.take(i as int), width as nat),
            ),
        decreases count - i,
    {
        proof {
            assert((i + 1) * width == i * width + width) by (nonlinear_arith);
            assert((i + 1) * width <= count * width) by (nonlinear_arith)
                requires
                    i + 1 <= count,
                    width >= 0,
            ;
            lemma_codes_bits_len(codes@.take(i as int), width as nat);
            lemma_codes_bits_step(codes@, width as nat, i as int);
            lemma_bits_of_len(codes@[i as int] as nat, width as nat);
            lemma_overwrite_twice(
                old(buf)@,
                cursor as int,
                codes_bits(codes@.take(i as int), width as nat),
                bits_of(codes@[i as int] as nat, width as nat),
            );
        }
        next = write_value_with_length(buf, next, width, codes[i] as u32);
        i = i + 1;
    }
    next
}

/// Reads `count` codes of `width` bits each.
pub fn read_codes<'a>(input: BitInput<'a>, width: usize, count: usize) -> (res: Result<
    (BitInput<'a>, [u8; 15]),
    ParseError,
>)
    requires
        1 <= width <= 8,
        count <= 15,
        input.0@.len() <= MTU_BYTES,
    ensures
        match read_codes_spec(input_bits(input), input.1 as int, width as nat, count as nat) {
            Ok((codes, next)) => {
                &&& res == Ok::<(BitInput<'a>, [u8; 15]), ParseError>(
                    ((input.0, next as usize), codes),
                )
                &&& input.1 <= next
                &&& next <= input_bits(input).len() || next == input.1
                &&& forall|i: int|
                    0 <= i < count ==> (#[trigger] codes@[i] as nat) < pow2(width as nat)
                &&& forall|i: int| count <= i < 15 ==> codes@[i] == 0
            },
            Err(e) => res == Err::<(BitInput<'a>, [u8; 15]), ParseError>(e),
        },
{
    broadcast use vstd::array::group_array_axioms;

    let ghost bits = input_bits(input);
    let ghost at = input.1 as int;
    let mut codes = [0u8; 15];
    let mut rest = input;
    let mut i: usize = 0;
    while i < count
        invariant
            1 <= width <= 8,
            i <= count <= 15,
            rest.0 == input.0,
            input.0@.len() <= MTU_BYTES,
            bits == input_bits(input),
            at == input.1,
            read_codes_spec(bits, at, width as nat, i as nat) == Ok::<([u8; 15], int), ParseError>(
                (codes, rest.1 as int),
            ),
            at <= rest.1,
            rest.1 <= bits.len() || rest.1 == at,
            forall|k: int| 0 <= k < i ==> (#[trigger] codes@[k] as nat) < pow2(width as nat),
            forall|k: int| i <= k < 15 ==> codes@[k] == 0,
        decreases count - i,
    {
        let (after, code) = match read_value_with_length(rest, width) {
            Ok(r) => r,
            Err(e) => {
                proof {
                    lemma_codes_error(bits, at, width as nat, (i + 1) as nat, count as nat);
                }
                return Err(e);
            },
        };
        proof {
            lemma_value_of_bound(bits.subrange(rest.1 as int, rest.1 + width));
            lemma2_to64();
            vstd::arithmetic::power2::lemma_pow2_strictly_increases(width as nat, 9);
            if width < 8 {
                vstd::arithmetic::power2::lemma_pow2_strictly_increases(width as nat, 8);
            }
        }
        codes[i] = code as u8;
        rest = after;
        i = i + 1;
    }
    Ok((rest, codes))
}

/// A marking: up to fifteen character codes of five or six bits each. On
/// the wire it is its length in 4 bits, its encoding in 1, and its codes.
#[derive(Clone, Copy, Debug, PartialEq, Eq)]
pub struct EntityMarking {
    pub char_encoding: CharEncoding,
    pub length: u8,
    /// The codes, in the first `length` places; the others hold zero.
    pub codes: [u8; 15],
}

impl EntityMarking {
    pub fn new(char_encoding: CharEncoding, length: u8, codes: [u8; 15]) -> (marking: EntityMarking)
        ensures
            marking == (EntityMarking { char_encoding, length, codes }),
    {
        EntityMarking { char_encoding, length, codes }
    }

    /// The codes that the marking holds.
    pub open spec fn held_codes(self) -> Seq<u8> {
        self.codes@.take(self.length as int)
    }

    /// How long the marking is on the wire.
    pub proof fn lemma_wire_length(self)
        requires
            self.wf(),
        ensures
            self.wire_bits().len() == 5 + self.length * self.char_encoding.width(),
            self.wire_bits().len() <= 95,
    {
        broadcast use vstd::array::group_array_axioms;

        lemma_bits_of_len(self.length as nat, 4);
        lemma_bits_of_len(self.char_encoding.flag(), 1);
        lemma_codes_bits_len(self.held_codes(), self.char_encoding.width());
        assert(self.length * self.char_encoding.width() <= 90) by (nonlinear_arith)
            requires
                self.length <= 15,
                self.char_encoding.width() <= 6,
        ;
    }

    /// A written marking reads back as itself, and the reader stops where
    /// the writer did.
    pub proof fn lemma_round_trip(self, bits: Seq<bool>, at: int)
        requires
            self.wf(),
            0 <= at,
            at + self.wire_bits().len() <= bits.len(),
            bits.subrange(at, at + self.wire_bits().len()) == self.wire_bits(),
        ensures
            entity_marking_spec(bits, at) == Ok::<(EntityMarking, int), ParseError>(
                (self, at + self.wire_bits().len()),
            ),
    {
        broadcast use vstd::array::group_array_axioms;

        reveal(entity_marking_spec);
        lemma2_to64();
        self.lemma_wire_length();
        let width = self.char_encoding.width();
        let p_length = bits_of(self.length as nat, 4);
        let p_flag = bits_of(self.char_encoding.flag(), 1);
        let p_codes = codes_bits(self.held_codes(), width);
        lemma_bits_of_len(self.length as nat, 4);
        lemma_bits_of_len(self.char_encoding.flag(), 1);
        lemma_split_written(bits, at, p_length + p_flag, p_codes);
        lemma_split_written(bits, at, p_length, p_flag);
        lemma_read_written(bits, at, 4, self.length as nat);
        lemma_read_written(bits, at + 4, 1, self.char_encoding.flag());
        lemma_codes_round_trip(bits, at + 5, width, self.codes@, self.length as nat);
        let read = read_codes_spec(bits, at + 5, width, self.length as nat)->Ok_0.0;
        assert(read =~= self.codes);
    }
}

impl SerializeCdis for EntityMarking {
    /// The length is within bounds, the codes fit their width, and the
    /// places after them hold zero.
    open spec fn wf(&self) -> bool {
        &&& self.length <= 15
        &&& forall|i: int|
            0 <= i < self.length ==> #[trigger] self.codes@[i] <= self.char_encoding.max()
        &&& forall|i: int| self.length <= i < 15 ==> #[trigger] self.codes@[i] == 0
    }

    open spec fn wire_bits(&self) -> Seq<bool> {
        bits_of(self.length as nat, 4) + bits_of(self.char_encoding.flag(), 1) + codes_bits(
            self.held_codes(),
            self.char_encoding.width(),
        )
    }

    fn is_valid(&self) -> (valid: bool) {
        broadcast use vstd::array::group_array_axioms;

        if self.length > 15 {
            return false;
        }
        let max = self.char_encoding.max_value();
        let mut i: usize = 0;
        while i < 15
            invariant
                i <= 15,
                self.length <= 15,
                max == self.char_encoding.max(),
                forall|k: int| 0 <= k < i && k < self.length ==> #[trigger] self.codes@[k] <= max,
                forall|k: int| self.length <= k < i ==> #[trigger] self.codes@[k] == 0,
            decreases 15 - i,
        {
            if i < self.length as usize {
                if self.codes[i] > max {
                    return false;
                }
            } else if self.codes[i] != 0 {
                return false;
            }
            i = i + 1;
        }
        true
    }

    fn bit_length(&self) -> (length: usize)
        ensures
            length <= 95,
    {
        proof {
            self.lemma_wire_length();
        }
        FOUR_BITS + ONE_BIT + self.length as usize * self.char_encoding.bit_size()
    }

    fn serialize(&self, buf: &mut BitBuffer, cursor: usize) -> (next: usize) {
        proof {
            self.lemma_wire_length();
            lemma_bits_of_len(self.length as nat, 4);
            lemma_bits_of_len(self.char_encoding.flag(), 1);
        }
        let after_length = write_value_with_length(buf, cursor, FOUR_BITS, self.length as u32);
        let after_flag = write_value_with_length(
            buf,
            after_length,
            ONE_BIT,
            self.char_encoding.flag_bits_value() as u32,
        );
        proof {
            lemma_overwrite_twice(
                old(buf)@,
                cursor as int,
                bits_of(self.length as nat, 4),
                bits_of(self.char_encoding.flag(), 1),
            );
        }
        let next = write_codes(
            buf,
            after_flag,
            self.char_encoding.bit_size(),
            &self.codes,
            self.length as usize,
        );
        proof {
            lemma_overwrite_twice(
                old(buf)@,
                cursor as int,
                bits_of(self.length as nat, 4) + bits_of(self.char_encoding.flag(), 1),
                codes_bits(self.held_codes(), self.char_encoding.width()),
            );
        }
        next
    }
}

/// What parsing a marking at `at` gives.
#[verifier::opaque]
pub open spec fn entity_marking_spec(bits: Seq<bool>, at: int) -> Result<
    (EntityMarking, int),
    ParseError,
> {
    match read_spec(bits, at, 4) {
        Err(e) => Err(e),
        Ok((length, at)) => match read_spec(bits, at, 1) {
            Err(e) => Err(e),
            Ok((flag, at)) => {
                let char_encoding = CharEncoding::of_flag(flag);
                match read_codes_spec(bits, at, char_encoding.width(), length) {
                    Err(e) => Err(e),
                    Ok((codes, at)) => Ok(
                        (EntityMarking { char_encoding, length: length as u8, codes }, at),
                    ),
                }
            },
        },
    }
}

/// Parses a marking: its length, its encoding, and as many codes.
pub fn entity_marking<'a>(input: BitInput<'a>) -> (res: Result<
    (BitInput<'a>, EntityMarking),
    ParseError,
>)
    requires
        input.0@.len() <= MTU_BYTES,
    ensures
        match entity_marking_spec(input_bits(input), input.1 as int) {
            Ok((v, next)) => res == Ok::<(BitInput<'a>, EntityMarking), ParseError>(
                ((input.0, next as usize), v),
            ) && v.wf() && input.1 <= next <= input_bits(input).len(),
            Err(e) => res == Err::<(BitInput<'a>, EntityMarking), ParseError>(e),
        },
{
    let ghost bits = input_bits(input);
    let ghost at = input.1 as int;
    proof {
        reveal(entity_marking_spec);
        lemma2_to64();
    }
    let (input, length) = match read_value_with_length(input, FOUR_BITS) {
        Ok(r) => r,
        Err(e) => { return Err(e); },
    };
    proof {
        lemma_value_of_bound(bits.subrange(at, at + 4));
    }
    let (input, flag) = match read_value_with_length(input, ONE_BIT) {
        Ok(r) => r,
        Err(e) => { return Err(e); },
    };
    proof {
        lemma_value_of_bound(bits.subrange(at + 4, at + 5));
    }
    let char_encoding = CharEncoding::from_flag(flag as u8);
    let (input, codes) = match read_codes(input, char_encoding.bit_size(), length as usize) {
        Ok(r) => r,
        Err(e) => { return Err(e); },
    };
    Ok((input, EntityMarking { char_encoding, length: length as u8, codes }))
}

} // verus!
