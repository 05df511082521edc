//! The signed variable-precision integers.

use vstd::prelude::*;
use vstd::arithmetic::power2::{pow2, lemma2_to64};
use crate::constants::{MTU_BYTES, MTU_BITS};
use crate::bits::{bits_of, overwrite, lemma_bits_of_len, lemma_value_of_bound,
    lemma_overwrite_twice};
use crate::buffer::{BitBuffer, BitInput, input_bits, read_spec, read_value_with_length,
    write_value_with_length};
use crate::codec::SerializeCdis;
use crate::error::{CdisError, Family, ParseError};
use crate::varint::{least_of_width, signed_bits, signed_wire, read_signed_spec,
    read_signed_value, write_signed_value, lemma_signed_bits, lemma_signed_round_trip};

verus! {

/// The tiers of SVINT12: a flag of 2 bits picks a width of 3, 6, 9 or 12 bits,
/// the sign bit counted in.
#[derive(Clone, Copy, Debug, PartialEq, Eq, Structural)]
pub enum Svint12BitSize {
    Three,
    Six,
    Nine,
    Twelve,
}

impl Svint12BitSize {
    /// Width of the flag field.
    pub const FLAG_SIZE: usize = 2;

    /// The tier's width in bits.
    pub open spec fn width(self) -> nat {
        match self {
            Svint12BitSize::Three => 3,
            Svint12BitSize::Six => 6,
            Svint12BitSize::Nine => 9,
            Svint12BitSize::Twelve => 12,
        }
    }

    /// The tier's flag code.
    pub open spec fn flag(self) -> nat {
        match self {
            Svint12BitSize::Three => 0,
            Svint12BitSize::Six => 1,
            Svint12BitSize::Nine => 2,
            Svint12BitSize::Twelve => 3,
        }
    }

    /// The least value that the tier holds.
    pub open spec fn min(self) -> int {
        match self {
            Svint12BitSize::Three => -4,
            Svint12BitSize::Six => -32,
            Svint12BitSize::Nine => -256,
            Svint12BitSize::Twelve => -2048,
        }
    }

    /// The greatest value that the tier holds.
    pub open spec fn max(self) -> int {
        match self {
            Svint12BitSize::Three => 3,
            Svint12BitSize::Six => 31,
            Svint12BitSize::Nine => 255,
            Svint12BitSize::Twelve => 2047,
        }
    }

    /// The tier that a flag code names; codes past the table name the last.
    pub open spec fn of_flag(flag: nat) -> Svint12BitSize {
        if flag == 0 {
            Svint12BitSize::Three
        } else if flag == 1 {
            Svint12BitSize::Six
        } else if flag == 2 {
            Svint12BitSize::Nine
        } else {
            Svint12BitSize::Twelve
        }
    }

    /// The narrowest tier that holds `value`.
    pub open spec fn smallest_for(value: int) -> Svint12BitSize {
        if -4 <= value && value <= 3 {
            Svint12BitSize::Three
        } else if -32 <= value && value <= 31 {
            Svint12BitSize::Six
        } else if -256 <= value && value <= 255 {
            Svint12BitSize::Nine
        } else {
            Svint12BitSize::Twelve
        }
    }

    pub fn bit_size(&self) -> (bits: usize)
        ensures
            bits == self.width(),
    {
        match self {
            Svint12BitSize::Three => 3,
            Svint12BitSize::Six => 6,
            Svint12BitSize::Nine => 9,
            Svint12BitSize::Twelve => 12,
        }
    }

    pub fn flag_bits_value(&self) -> (flag: u8)
        ensures
            flag == self.flag(),
    {
        match self {
            Svint12BitSize::Three => 0,
            Svint12BitSize::Six => 1,
            Svint12BitSize::Nine => 2,
            Svint12BitSize::Twelve => 3,
        }
    }

    pub fn min_value(&self) -> (min: i16)
        ensures
            min == self.min(),
    {
        match self {
            Svint12BitSize::Three => -4,
            Svint12BitSize::Six => -32,
            Svint12BitSize::Nine => -256,
            Svint12BitSize::Twelve => -2048,
        }
    }

    pub fn max_value(&self) -> (max: i16)
        ensures
            max == self.max(),
    {
        match self {
            Svint12BitSize::Three => 3,
            Svint12BitSize::Six => 31,
            Svint12BitSize::Nine => 255,
            Svint12BitSize::Twelve => 2047,
        }
    }

    /// Looks a flag code up in the table.
    pub fn from_flag(flag: u8) -> (res: Result<Svint12BitSize, ParseError>)
        ensures
            flag < 4 ==> res == Ok::<Svint12BitSize, ParseError>(
                Svint12BitSize::of_flag(flag as nat),
            ),
            flag >= 4 ==> res == Err::<Svint12BitSize, ParseError>(
                ParseError::UnknownTierFlag { family: Family::Svint12, flag },
            ),
    {
        match flag {
            0 => Ok(Svint12BitSize::Three),
            1 => Ok(Svint12BitSize::Six),
            2 => Ok(Svint12BitSize::Nine),
            3 => Ok(Svint12BitSize::Twelve),
            _ => Err(ParseError::UnknownTierFlag { family: Family::Svint12, flag }),
        }
    }

    /// Picks the narrowest tier that holds `value`.
    pub fn select(value: i16) -> (tier: Svint12BitSize)
        ensures
            tier == Svint12BitSize::smallest_for(value as int),
    {
        if -4 <= value && value <= 3 {
            Svint12BitSize::Three
        } else if -32 <= value && value <= 31 {
            Svint12BitSize::Six
        } else if -256 <= value && value <= 255 {
            Svint12BitSize::Nine
        } else {
            Svint12BitSize::Twelve
        }
    }

    pub proof fn lemma_table(self)
        ensures
            self.flag() < pow2(2),
            Svint12BitSize::of_flag(self.flag()) == self,
            self.min() == least_of_width(self.width()),
            self.max() == -self.min() - 1,
            3 <= self.width() <= 12,
    {
        lemma2_to64();
    }
}

/// A signed integer of up to twelve bits with the tier that carries it.
#[derive(Clone, Copy, Debug, PartialEq, Eq, Structural)]
pub struct SVINT12 {
    pub bit_size: Svint12BitSize,
    pub value: i16,
}

impl SVINT12 {
    pub fn new(bit_size: Svint12BitSize, value: i16) -> (v: SVINT12)
        ensures
            v == (SVINT12 { bit_size, value }),
    {
        SVINT12 { bit_size, value }
    }

    pub fn bit_size(&self) -> (bits: usize)
        ensures
            bits == self.bit_size.width(),
    {
        self.bit_size.bit_size()
    }

    pub fn flag_bits_value(&self) -> (flag: u8)
        ensures
            flag == self.bit_size.flag(),
    {
        self.bit_size.flag_bits_value()
    }

    /// The least value of the tier.
    pub fn min_value(&self) -> (min: i16)
        ensures
            min == self.bit_size.min(),
    {
        self.bit_size.min_value()
    }

    /// The greatest value of the tier.
    pub fn max_value(&self) -> (max: i16)
        ensures
            max == self.bit_size.max(),
    {
        self.bit_size.max_value()
    }

    /// The values that the family can carry.
    pub open spec fn in_range(value: int) -> bool {
        -2048 <= value <= 2047
    }

    /// The tier is the narrowest that holds the value.
    pub open spec fn canonical(self) -> bool {
        self.bit_size == Svint12BitSize::smallest_for(self.value as int)
    }

    /// What `from_value` makes of a value in range.
    pub open spec fn of_value(value: int) -> SVINT12 {
        SVINT12 { bit_size: Svint12BitSize::smallest_for(value), value: value as i16 }
    }

    /// Pairs a value with the narrowest tier that holds it.
    pub fn from_value(value: i64) -> (res: Result<SVINT12, CdisError>)
        ensures
            SVINT12::in_range(value as int) ==> res == Ok::<SVINT12, CdisError>(
                SVINT12::of_value(value as int),
            ),
            !SVINT12::in_range(value as int) ==> res == Err::<SVINT12, CdisError>(
                CdisError::ValueOutOfRange { family: Family::Svint12, value },
            ),
    {
        if value < -2048 || value > 2047 {
            return Err(CdisError::ValueOutOfRange { family: Family::Svint12, value });
        }
        let value = value as i16;
        Ok(SVINT12 { bit_size: Svint12BitSize::select(value), value })
    }

    /// Encodes `value` at `cursor` in its narrowest tier. Nothing is
    /// written when the value is out of range or the buffer too short.
    pub fn encode(value: i64, buf: &mut BitBuffer, cursor: usize) -> (res: Result<usize, CdisError>)
        ensures
            match res {
                Ok(next) => {
                    &&& SVINT12::in_range(value as int)
                    &&& next == cursor + SVINT12::of_value(value as int).wire_bits().len()
                    &&& next <= MTU_BITS
                    &&& final(buf)@ == overwrite(
                        old(buf)@,
                        cursor as int,
                        SVINT12::of_value(value as int).wire_bits(),
                    )
                },
                Err(e) => {
                    &&& final(buf)@ == old(buf)@
                    &&& if SVINT12::in_range(value as int) {
                        &&& e == CdisError::CapacityExceeded
                        &&& cursor + SVINT12::of_value(value as int).wire_bits().len() > MTU_BITS
                    } else {
                        e == (CdisError::ValueOutOfRange { family: Family::Svint12, value })
                    }
                },
            },
    {
        let v = match SVINT12::from_value(value) {
            Ok(v) => v,
            Err(e) => { return Err(e); },
        };
        proof {
            SVINT12::lemma_of_value(value as int);
        }
        let length = v.bit_length();
        if cursor > MTU_BITS || length > MTU_BITS - cursor {
            return Err(CdisError::CapacityExceeded);
        }
        Ok(v.serialize(buf, cursor))
    }

    /// `of_value` gives a value that can be written, in its narrowest tier.
    pub proof fn lemma_of_value(value: int)
        requires
            SVINT12::in_range(value),
        ensures
            SVINT12::of_value(value).wf(),
            SVINT12::of_value(value).canonical(),
            SVINT12::of_value(value).value == value,
    {
    }

    /// No tier that holds the value is narrower than the one chosen for it.
    pub proof fn lemma_smallest(value: int, tier: Svint12BitSize)
        requires
            tier.min() <= value <= tier.max(),
        ensures
            Svint12BitSize::smallest_for(value).min() <= value,
            value <= Svint12BitSize::smallest_for(value).max(),
            Svint12BitSize::smallest_for(value).width() <= tier.width(),
    {
    }

    /// On the wire the value is its flag, its sign, and then the value
    /// itself or, when negative, its distance from the tier's least value.
    pub proof fn lemma_sign_offset(self)
        requires
            self.wf(),
        ensures
            self.wire_bits() == bits_of(self.bit_size.flag(), 2) + seq![self.value < 0] + bits_of(
                if self.value < 0 {
                    (self.value - self.bit_size.min()) as nat
                } else {
                    self.value as nat
                },
                (self.bit_size.width() - 1) as nat,
            ),
    {
        self.bit_size.lemma_table();
    }

    /// The value takes its flag and its tier's width on the wire.
    pub proof fn lemma_wire_length(self)
        requires
            self.wf(),
        ensures
            self.wire_bits().len() == 2 + self.bit_size.width(),
            self.wire_bits().len() <= 2 + 12,
    {
        lemma_bits_of_len(self.bit_size.flag(), 2);
        self.bit_size.lemma_table();
        lemma_signed_bits(self.bit_size.width(), self.value as int);
    }

    /// A written value reads back as itself, and the reader stops where the
    /// writer did.
    pub proof fn lemma_round_trip(self, bits: Seq<bool>, at: int)
        requires
            self.wf(),
            0 <= at,
            at + self.wire_bits().len() <= bits.len(),
            bits.subrange(at, at + self.wire_bits().len()) == self.wire_bits(),
        ensures
            svint12_spec(bits, at) == Ok::<(SVINT12, int), ParseError>(
                (self, at + self.wire_bits().len()),
            ),
    {
        reveal(svint12_spec);
        self.bit_size.lemma_table();
        lemma_bits_of_len(self.bit_size.flag(), 2);
        lemma_signed_bits(self.bit_size.width(), self.value as int);
        lemma_signed_round_trip(
            bits,
            at,
            2,
            self.bit_size.flag(),
            self.bit_size.width(),
            self.value as int,
        );
    }
}

/// A value with the narrowest tier of the family; a value that no tier
/// holds gets the widest.
impl From<i16> for SVINT12 {
    fn from(value: i16) -> (v: SVINT12) {
        SVINT12 { bit_size: Svint12BitSize::select(value), value }
    }
}

impl vstd::std_specs::convert::FromSpecImpl<i16> for SVINT12 {
    open spec fn obeys_from_spec() -> bool {
        true
    }

    open spec fn from_spec(value: i16) -> SVINT12 {
        SVINT12 { bit_size: Svint12BitSize::smallest_for(value as int), value }
    }
}

impl SerializeCdis for SVINT12 {
    /// The value fits the tier.
    open spec fn wf(&self) -> bool {
        self.bit_size.min() <= self.value <= self.bit_size.max()
    }

    open spec fn wire_bits(&self) -> Seq<bool> {
        signed_wire(2, self.bit_size.flag(), self.bit_size.width(), self.value as int)
    }

    fn is_valid(&self) -> (valid: bool) {
        self.bit_size.min_value() <= self.value && self.value <= self.bit_size.max_value()
    }

    fn bit_length(&self) -> (length: usize)
        ensures
            length == 2 + self.bit_size.width(),
    {
        proof {
            self.bit_size.lemma_table();
            lemma_bits_of_len(self.bit_size.flag(), 2);
            lemma_signed_bits(self.bit_size.width(), self.value as int);
        }
        Svint12BitSize::FLAG_SIZE + self.bit_size()
    }

    fn serialize(&self, buf: &mut BitBuffer, cursor: usize) -> (next: usize) {
        proof {
            self.bit_size.lemma_table();
            lemma_bits_of_len(self.bit_size.flag(), 2);
            lemma_signed_bits(self.bit_size.width(), self.value as int);
        }
        let after_flag = write_value_with_length(
            buf,
            cursor,
            Svint12BitSize::FLAG_SIZE,
            self.flag_bits_value() as u32,
        );
        let next = write_signed_value(
            buf,
            after_flag,
            self.bit_size(),
            self.min_value() as i32,
            self.value as i32,
        );
        proof {
            lemma_overwrite_twice(
                old(buf)@,
                cursor as int,
                bits_of(self.bit_size.flag(), 2),
                signed_bits(self.bit_size.width(), self.value as int),
            );
        }
        next
    }
}

/// What parsing a SVINT12 at `at` gives: the value with the tier that its
/// flag names, and the position after it.
#[verifier::opaque]
pub open spec fn svint12_spec(bits: Seq<bool>, at: int) -> Result<(SVINT12, int), ParseError> {
    match read_spec(bits, at, 2) {
        Err(e) => Err(e),
        Ok((flag, after_flag)) => {
            let bit_size = Svint12BitSize::of_flag(flag);
            match read_signed_spec(bits, after_flag, bit_size.width()) {
                Err(e) => Err(e),
                Ok((value, next)) => Ok((SVINT12 { bit_size, value: value as i16 }, next)),
            }
        },
    }
}

/// Parses a SVINT12: the flag, the sign, and the magnitude in the width that
/// the flag names.
pub fn svint12<'a>(input: BitInput<'a>) -> (res: Result<(BitInput<'a>, SVINT12), ParseError>)
    requires
        input.0@.len() <= MTU_BYTES,
    ensures
        match svint12_spec(input_bits(input), input.1 as int) {
            Ok((v, next)) => res == Ok::<(BitInput<'a>, SVINT12), ParseError>(
                ((input.0, next as usize), v),
            ) && v.wf() && input.1 <= next <= input_bits(input).len(),
            Err(e) => res == Err::<(BitInput<'a>, SVINT12), ParseError>(e),
        },
{
    let ghost bits = input_bits(input);
    proof {
        reveal(svint12_spec);
    }
    let (after_flag, flag) = match read_value_with_length(input, Svint12BitSize::FLAG_SIZE) {
        Ok(r) => r,
        Err(e) => { return Err(e); },
    };
    proof {
        lemma_value_of_bound(bits.subrange(input.1 as int, input.1 + 2));
        lemma2_to64();
    }
    let bit_size = match Svint12BitSize::from_flag(flag as u8) {
        Ok(t) => t,
        Err(e) => { return Err(e); },
    };
    proof {
        bit_size.lemma_table();
    }
    let (rest, value) = match read_signed_value(
        after_flag,
        bit_size.bit_size(),
        bit_size.min_value() as i32,
    ) {
        Ok(r) => r,
        Err(e) => { return Err(e); },
    };
    Ok((rest, SVINT12::new(bit_size, value as i16)))
}

/// The tiers of SVINT13: a flag of 2 bits picks a width of 5, 7, 10 or 13 bits,
/// the sign bit counted in.
#[derive(Clone, Copy, Debug, PartialEq, Eq, Structural)]
pub enum Svint13BitSize {
    Five,
    Seven,
    Ten,
    Thirteen,
}

impl Svint13BitSize {
    /// Width of the flag field.
    pub const FLAG_SIZE: usize = 2;

    /// The tier's width in bits.
    pub open spec fn width(self) -> nat {
        match self {
            Svint13BitSize::Five => 5,
            Svint13BitSize::Seven => 7,
            Svint13BitSize::Ten => 10,
            Svint13BitSize::Thirteen => 13,
        }
    }

    /// The tier's flag code.
    pub open spec fn flag(self) -> nat {
        match self {
            Svint13BitSize::Five => 0,
            Svint13BitSize::Seven => 1,
            Svint13BitSize::Ten => 2,
            Svint13BitSize::Thirteen => 3,
        }
    }

    /// The least value that the tier holds.
    pub open spec fn min(self) -> int {
        match self {
            Svint13BitSize::Five => -16,
            Svint13BitSize::Seven => -64,
            Svint13BitSize::Ten => -512,
            Svint13BitSize::Thirteen => -4096,
        }
    }

    /// The greatest value that the tier holds.
    pub open spec fn max(self) -> int {
        match self {
            Svint13BitSize::Five => 15,
            Svint13BitSize::Seven => 63,
            Svint13BitSize::Ten => 511,
            Svint13BitSize::Thirteen => 4095,
        }
    }

    /// The tier that a flag code names; codes past the table name the last.
    pub open spec fn of_flag(flag: nat) -> Svint13BitSize {
        if flag == 0 {
            Svint13BitSize::Five
        } else if flag == 1 {
            Svint13BitSize::Seven
        } else if flag == 2 {
            Svint13BitSize::Ten
        } else {
            Svint13BitSize::Thirteen
        }
    }

    /// The narrowest tier that holds `value`.
    pub open spec fn smallest_for(value: int) -> Svint13BitSize {
        if -16 <= value && value <= 15 {
            Svint13BitSize::Five
        } else if -64 <= value && value <= 63 {
            Svint13BitSize::Seven
        } else if -512 <= value && value <= 511 {
            Svint13BitSize::Ten
        } else {
            Svint13BitSize::Thirteen
        }
    }

    pub fn bit_size(&self) -> (bits: usize)
        ensures
            bits == self.width(),
    {
        match self {
            Svint13BitSize::Five => 5,
            Svint13BitSize::Seven => 7,
            Svint13BitSize::Ten => 10,
            Svint13BitSize::Thirteen => 13,
        }
    }

    pub fn flag_bits_value(&self) -> (flag: u8)
        ensures
            flag == self.flag(),
    {
        match self {
            Svint13BitSize::Five => 0,
            Svint13BitSize::Seven => 1,
            Svint13BitSize::Ten => 2,
            Svint13BitSize::Thirteen => 3,
        }
    }

    pub fn min_value(&self) -> (min: i16)
        ensures
            min == self.min(),
    {
        match self {
            Svint13BitSize::Five => -16,
            Svint13BitSize::Seven => -64,
            Svint13BitSize::Ten => -512,
            Svint13BitSize::Thirteen => -4096,
        }
    }

    pub fn max_value(&self) -> (max: i16)
        ensures
            max == self.max(),
    {
        match self {
            Svint13BitSize::Five => 15,
            Svint13BitSize::Seven => 63,
            Svint13BitSize::Ten => 511,
            Svint13BitSize::Thirteen => 4095,
        }
    }

    /// Looks a flag code up in the table.
    pub fn from_flag(flag: u8) -> (res: Result<Svint13BitSize, ParseError>)
        ensures
            flag < 4 ==> res == Ok::<Svint13BitSize, ParseError>(
                Svint13BitSize::of_flag(flag as nat),
            ),
            flag >= 4 ==> res == Err::<Svint13BitSize, ParseError>(
                ParseError::UnknownTierFlag { family: Family::Svint13, flag },
            ),
    {
        match flag {
            0 => Ok(Svint13BitSize::Five),
            1 => Ok(Svint13BitSize::Seven),
            2 => Ok(Svint13BitSize::Ten),
            3 => Ok(Svint13BitSize::Thirteen),
            _ => Err(ParseError::UnknownTierFlag { family: Family::Svint13, flag }),
        }
    }

    /// Picks the narrowest tier that holds `value`.
    pub fn select(value: i16) -> (tier: Svint13BitSize)
        ensures
            tier == Svint13BitSize::smallest_for(value as int),
    {
        if -16 <= value && value <= 15 {
            Svint13BitSize::Five
        } else if -64 <= value && value <= 63 {
            Svint13BitSize::Seven
        } else if -512 <= value && value <= 511 {
            Svint13BitSize::Ten
        } else {
            Svint13BitSize::Thirteen
        }
    }

    pub proof fn lemma_table(self)
        ensures
            self.flag() < pow2(2),
            Svint13BitSize::of_flag(self.flag()) == self,
            self.min() == least_of_width(self.width()),
            self.max() == -self.min() - 1,
            3 <= self.width() <= 13,
    {
        lemma2_to64();
    }
}

/// A signed integer of up to thirteen bits with the tier that carries it.
#[derive(Clone, Copy, Debug, PartialEq, Eq, Structural)]
pub struct SVINT13 {
    pub bit_size: Svint13BitSize,
    pub value: i16,
}

impl SVINT13 {
    pub fn new(bit_size: Svint13BitSize, value: i16) -> (v: SVINT13)
        ensures
            v == (SVINT13 { bit_size, value }),
    {
        SVINT13 { bit_size, value }
    }

    pub fn bit_size(&self) -> (bits: usize)
        ensures
            bits == self.bit_size.width(),
    {
        self.bit_size.bit_size()
    }

    pub fn flag_bits_value(&self) -> (flag: u8)
        ensures
            flag == self.bit_size.flag(),
    {
        self.bit_size.flag_bits_value()
    }

    /// The least value of the tier.
    pub fn min_value(&self) -> (min: i16)
        ensures
            min == self.bit_size.min(),
    {
        self.bit_size.min_value()
    }

    /// The greatest value of the tier.
    pub fn max_value(&self) -> (max: i16)
        ensures
            max == self.bit_size.max(),
    {
        self.bit_size.max_value()
    }

    /// The values that the family can carry.
    pub open spec fn in_range(value: int) -> bool {
        -4096 <= value <= 4095
    }

    /// The tier is the narrowest that holds the value.
    pub open spec fn canonical(self) -> bool {
        self.bit_size == Svint13BitSize::smallest_for(self.value as int)
    }

    /// What `from_value` makes of a value in range.
    pub open spec fn of_value(value: int) -> SVINT13 {
        SVINT13 { bit_size: Svint13BitSize::smallest_for(value), value: value as i16 }
    }

    /// Pairs a value with the narrowest tier that holds it.
    pub fn from_value(value: i64) -> (res: Result<SVINT13, CdisError>)
        ensures
            SVINT13::in_range(value as int) ==> res == Ok::<SVINT13, CdisError>(
                SVINT13::of_value(value as int),
            ),
            !SVINT13::in_range(value as int) ==> res == Err::<SVINT13, CdisError>(
                CdisError::ValueOutOfRange { family: Family::Svint13, value },
            ),
    {
        if value < -4096 || value > 4095 {
            return Err(CdisError::ValueOutOfRange { family: Family::Svint13, value });
        }
        let value = value as i16;
        Ok(SVINT13 { bit_size: Svint13BitSize::select(value), value })
    }

    /// Encodes `value` at `cursor` in its narrowest tier. Nothing is
    /// written when the value is out of range or the buffer too short.
    pub fn encode(value: i64, buf: &mut BitBuffer, cursor: usize) -> (res: Result<usize, CdisError>)
        ensures
            match res {
                Ok(next) => {
                    &&& SVINT13::in_range(value as int)
                    &&& next == cursor + SVINT13::of_value(value as int).wire_bits().len()
                    &&& next <= MTU_BITS
                    &&& final(buf)@ == overwrite(
                        old(buf)@,
                        cursor as int,
                        SVINT13::of_value(value as int).wire_bits(),
                    )
                },
                Err(e) => {
                    &&& final(buf)@ == old(buf)@
                    &&& if SVINT13::in_range(value as int) {
                        &&& e == CdisError::CapacityExceeded
                        &&& cursor + SVINT13::of_value(value as int).wire_bits().len() > MTU_BITS
                    } else {
                        e == (CdisError::ValueOutOfRange { family: Family::Svint13, value })
                    }
                },
            },
    {
        let v = match SVINT13::from_value(value) {
            Ok(v) => v,
            Err(e) => { return Err(e); },
        };
        proof {
            SVINT13::lemma_of_value(value as int);
        }
        let length = v.bit_length();
        if cursor > MTU_BITS || length > MTU_BITS - cursor {
            return Err(CdisError::CapacityExceeded);
        }
        Ok(v.serialize(buf, cursor))
    }

    /// `of_value` gives a value that can be written, in its narrowest tier.
    pub proof fn lemma_of_value(value: int)
        requires
            SVINT13::in_range(value),
        ensures
            SVINT13::of_value(value).wf(),
            SVINT13::of_value(value).canonical(),
            SVINT13::of_value(value).value == value,
    {
    }

    /// No tier that holds the value is narrower than the one chosen for it.
    pub proof fn lemma_smallest(value: int, tier: Svint13BitSize)
        requires
            tier.min() <= value <= tier.max(),
        ensures
            Svint13BitSize::smallest_for(value).min() <= value,
            value <= Svint13BitSize::smallest_for(value).max(),
            Svint13BitSize::smallest_for(value).width() <= tier.width(),
    {
    }

    /// On the wire the value is its flag, its sign, and then the value
    /// itself or, when negative, its distance from the tier's least value.
    pub proof fn lemma_sign_offset(self)
        requires
            self.wf(),
        ensures
            self.wire_bits() == bits_of(self.bit_size.flag(), 2) + seq![self.value < 0] + bits_of(
                if self.value < 0 {
                    (self.value - self.bit_size.min()) as nat
                } else {
                    self.value as nat
                },
                (self.bit_size.width() - 1) as nat,
            ),
    {
        self.bit_size.lemma_table();
    }

    /// The value takes its flag and its tier's width on the wire.
    pub proof fn lemma_wire_length(self)
        requires
            self.wf(),
        ensures
            self.wire_bits().len() == 2 + self.bit_size.width(),
            self.wire_bits().len() <= 2 + 13,
    {
        lemma_bits_of_len(self.bit_size.flag(), 2);
        self.bit_size.lemma_table();
        lemma_signed_bits(self.bit_size.width(), self.value as int);
    }

    /// A written value reads back as itself, and the reader stops where the
    /// writer did.
    pub proof fn lemma_round_trip(self, bits: Seq<bool>, at: int)
        requires
            self.wf(),
            0 <= at,
            at + self.wire_bits().len() <= bits.len(),
            bits.subrange(at, at + self.wire_bits().len()) == self.wire_bits(),
        ensures
            svint13_spec(bits, at) == Ok::<(SVINT13, int), ParseError>(
                (self, at + self.wire_bits().len()),
            ),
    {
        reveal(svint13_spec);
        self.bit_size.lemma_table();
        lemma_bits_of_len(self.bit_size.flag(), 2);
        lemma_signed_bits(self.bit_size.width(), self.value as int);
        lemma_signed_round_trip(
            bits,
            at,
            2,
            self.bit_size.flag(),
            self.bit_size.width(),
            self.value as int,
        );
    }
}

/// A value with the narrowest tier of the family; a value that no tier
/// holds gets the widest.
impl From<i16> for SVINT13 {
    fn from(value: i16) -> (v: SVINT13) {
        SVINT13 { bit_size: Svint13BitSize::select(value), value }
    }
}

impl vstd::std_specs::convert::FromSpecImpl<i16> for SVINT13 {
    open spec fn obeys_from_spec() -> bool {
        true
    }

    open spec fn from_spec(value: i16) -> SVINT13 {
        SVINT13 { bit_size: Svint13BitSize::smallest_for(value as int), value }
    }
}

impl SerializeCdis for SVINT13 {
    /// The value fits the tier.
    open spec fn wf(&self) -> bool {
        self.bit_size.min() <= self.value <= self.bit_size.max()
    }

    open spec fn wire_bits(&self) -> Seq<bool> {
        signed_wire(2, self.bit_size.flag(), self.bit_size.width(), self.value as int)
    }

    fn is_valid(&self) -> (valid: bool) {
        self.bit_size.min_value() <= self.value && self.value <= self.bit_size.max_value()
    }

    fn bit_length(&self) -> (length: usize)
        ensures
            length == 2 + self.bit_size.width(),
    {
        proof {
            self.bit_size.lemma_table();
            lemma_bits_of_len(self.bit_size.flag(), 2);
            lemma_signed_bits(self.bit_size.width(), self.value as int);
        }
        Svint13BitSize::FLAG_SIZE + self.bit_size()
    }

    fn serialize(&self, buf: &mut BitBuffer, cursor: usize) -> (next: usize) {
        proof {
            self.bit_size.lemma_table();
            lemma_bits_of_len(self.bit_size.flag(), 2);
            lemma_signed_bits(self.bit_size.width(), self.value as int);
        }
        let after_flag = write_value_with_length(
            buf,
            cursor,
            Svint13BitSize::FLAG_SIZE,
            self.flag_bits_value() as u32,
        );
        let next = write_signed_value(
            buf,
            after_flag,
            self.bit_size(),
            self.min_value() as i32,
            self.value as i32,
        );
        proof {
            lemma_overwrite_twice(
                old(buf)@,
                cursor as int,
                bits_of(self.bit_size.flag(), 2),
                signed_bits(self.bit_size.width(), self.value as int),
            );
        }
        next
    }
}

/// What parsing a SVINT13 at `at` gives: the value with the tier that its
/// flag names, and the position after it.
#[verifier::opaque]
pub open spec fn svint13_spec(bits: Seq<bool>, at: int) -> Result<(SVINT13, int), ParseError> {
    match read_spec(bits, at, 2) {
        Err(e) => Err(e),
        Ok((flag, after_flag)) => {
            let bit_size = Svint13BitSize::of_flag(flag);
            match read_signed_spec(bits, after_flag, bit_size.width()) {
                Err(e) => Err(e),
                Ok((value, next)) => Ok((SVINT13 { bit_size, value: value as i16 }, next)),
            }
        },
    }
}

/// Parses a SVINT13: the flag, the sign, and the magnitude in the width that
/// the flag names.
pub fn svint13<'a>(input: BitInput<'a>) -> (res: Result<(BitInput<'a>, SVINT13), ParseError>)
    requires
        input.0@.len() <= MTU_BYTES,
    ensures
        match svint13_spec(input_bits(input), input.1 as int) {
            Ok((v, next)) => res == Ok::<(BitInput<'a>, SVINT13), ParseError>(
                ((input.0, next as usize), v),
            ) && v.wf() && input.1 <= next <= input_bits(input).len(),
            Err(e) => res == Err::<(BitInput<'a>, SVINT13), ParseError>(e),
        },
{
    let ghost bits = input_bits(input);
    proof {
        reveal(svint13_spec);
    }
    let (after_flag, flag) = match read_value_with_length(input, Svint13BitSize::FLAG_SIZE) {
        Ok(r) => r,
        Err(e) => { return Err(e); },
    };
    proof {
        lemma_value_of_bound(bits.subrange(input.1 as int, input.1 + 2));
        lemma2_to64();
    }
    let bit_size = match Svint13BitSize::from_flag(flag as u8) {
        Ok(t) => t,
        Err(e) => { return Err(e); },
    };
    proof {
        bit_size.lemma_table();
    }
    let (rest, value) = match read_signed_value(
        after_flag,
        bit_size.bit_size(),
        bit_size.min_value() as i32,
    ) {
        Ok(r) => r,
        Err(e) => { return Err(e); },
    };
    Ok((rest, SVINT13::new(bit_size, value as i16)))
}

/// The tiers of SVINT14: a flag of 2 bits picks a width of 7, 9, 11 or 14 bits,
/// the sign bit counted in.
#[derive(Clone, Copy, Debug, PartialEq, Eq, Structural)]
pub enum Svint14BitSize {
    Seven,
    Nine,
    Eleven,
    Fourteen,
}

impl Svint14BitSize {
    /// Width of the flag field.
    pub const FLAG_SIZE: usize = 2;

    /// The tier's width in bits.
    pub open spec fn width(self) -> nat {
        match self {
            Svint14BitSize::Seven => 7,
            Svint14BitSize::Nine => 9,
            Svint14BitSize::Eleven => 11,
            Svint14BitSize::Fourteen => 14,
        }
    }

    /// The tier's flag code.
    pub open spec fn flag(self) -> nat {
        match self {
            Svint14BitSize::Seven => 0,
            Svint14BitSize::Nine => 1,
            Svint14BitSize::Eleven => 2,
            Svint14BitSize::Fourteen => 3,
        }
    }

    /// The least value that the tier holds.
    pub open spec fn min(self) -> int {
        match self {
            Svint14BitSize::Seven => -64,
            Svint14BitSize::Nine => -256,
            Svint14BitSize::Eleven => -1024,
            Svint14BitSize::Fourteen => -8192,
        }
    }

    /// The greatest value that the tier holds.
    pub open spec fn max(self) -> int {
        match self {
            Svint14BitSize::Seven => 63,
            Svint14BitSize::Nine => 255,
            Svint14BitSize::Eleven => 1023,
            Svint14BitSize::Fourteen => 8191,
        }
    }

    /// The tier that a flag code names; codes past the table name the last.
    pub open spec fn of_flag(flag: nat) -> Svint14BitSize {
        if flag == 0 {
            Svint14BitSize::Seven
        } else if flag == 1 {
            Svint14BitSize::Nine
        } else if flag == 2 {
            Svint14BitSize::Eleven
        } else {
            Svint14BitSize::Fourteen
        }
    }

    /// The narrowest tier that holds `value`.
    pub open spec fn smallest_for(value: int) -> Svint14BitSize {
        if -64 <= value && value <= 63 {
            Svint14BitSize::Seven
        } else if -256 <= value && value <= 255 {
            Svint14BitSize::Nine
        } else if -1024 <= value && value <= 1023 {
            Svint14BitSize::Eleven
        } else {
            Svint14BitSize::Fourteen
        }
    }

    pub fn bit_size(&self) -> (bits: usize)
        ensures
            bits == self.width(),
    {
        match self {
            Svint14BitSize::Seven => 7,
            Svint14BitSize::Nine => 9,
            Svint14BitSize::Eleven => 11,
            Svint14BitSize::Fourteen => 14,
        }
    }

    pub fn flag_bits_value(&self) -> (flag: u8)
        ensures
            flag == self.flag(),
    {
        match self {
            Svint14BitSize::Seven => 0,
            Svint14BitSize::Nine => 1,
            Svint14BitSize::Eleven => 2,
            Svint14BitSize::Fourteen => 3,
        }
    }

    pub fn min_value(&self) -> (min: i16)
        ensures
            min == self.min(),
    {
        match self {
            Svint14BitSize::Seven => -64,
            Svint14BitSize::Nine => -256,
            Svint14BitSize::Eleven => -1024,
            Svint14BitSize::Fourteen => -8192,
        }
    }

    pub fn max_value(&self) -> (max: i16)
        ensures
            max == self.max(),
    {
        match self {
            Svint14BitSize::Seven => 63,
            Svint14BitSize::Nine => 255,
            Svint14BitSize::Eleven => 1023,
            Svint14BitSize::Fourteen => 8191,
        }
    }

    /// Looks a flag code up in the table.
    pub fn from_flag(flag: u8) -> (res: Result<Svint14BitSize, ParseError>)
        ensures
            flag < 4 ==> res == Ok::<Svint14BitSize, ParseError>(
                Svint14BitSize::of_flag(flag as nat),
            ),
            flag >= 4 ==> res == Err::<Svint14BitSize, ParseError>(
                ParseError::UnknownTierFlag { family: Family::Svint14, flag },
            ),
    {
        match flag {
            0 => Ok(Svint14BitSize::Seven),
            1 => Ok(Svint14BitSize::Nine),
            2 => Ok(Svint14BitSize::Eleven),
            3 => Ok(Svint14BitSize::Fourteen),
            _ => Err(ParseError::UnknownTierFlag { family: Family::Svint14, flag }),
        }
    }

    /// Picks the narrowest tier that holds `value`.
    pub fn select(value: i16) -> (tier: Svint14BitSize)
        ensures
            tier == Svint14BitSize::smallest_for(value as int),
    {
        if -64 <= value && value <= 63 {
            Svint14BitSize::Seven
        } else if -256 <= value && value <= 255 {
            Svint14BitSize::Nine
        } else if -1024 <= value && value <= 1023 {
            Svint14BitSize::Eleven
        } else {
            Svint14BitSize::Fourteen
        }
    }

    pub proof fn lemma_table(self)
        ensures
            self.flag() < pow2(2),
            Svint14BitSize::of_flag(self.flag()) == self,
            self.min() == least_of_width(self.width()),
            self.max() == -self.min() - 1,
            3 <= self.width() <= 14,
    {
        lemma2_to64();
    }
}

/// A signed integer of up to fourteen bits with the tier that carries it.
#[derive(Clone, Copy, Debug, PartialEq, Eq, Structural)]
pub struct SVINT14 {
    pub bit_size: Svint14BitSize,
    pub value: i16,
}

impl SVINT14 {
    pub fn new(bit_size: Svint14BitSize, value: i16) -> (v: SVINT14)
        ensures
            v == (SVINT14 { bit_size, value }),
    {
        SVINT14 { bit_size, value }
    }

    pub fn bit_size(&self) -> (bits: usize)
        ensures
            bits == self.bit_size.width(),
    {
        self.bit_size.bit_size()
    }

    pub fn flag_bits_value(&self) -> (flag: u8)
        ensures
            flag == self.bit_size.flag(),
    {
        self.bit_size.flag_bits_value()
    }

    /// The least value of the tier.
    pub fn min_value(&self) -> (min: i16)
        ensures
            min == self.bit_size.min(),
    {
        self.bit_size.min_value()
    }

    /// The greatest value of the tier.
    pub fn max_value(&self) -> (max: i16)
        ensures
            max == self.bit_size.max(),
    {
        self.bit_size.max_value()
    }

    /// The values that the family can carry.
    pub open spec fn in_range(value: int) -> bool {
        -8192 <= value <= 8191
    }

    /// The tier is the narrowest that holds the value.
    pub open spec fn canonical(self) -> bool {
        self.bit_size == Svint14BitSize::smallest_for(self.value as int)
    }

    /// What `from_value` makes of a value in range.
    pub open spec fn of_value(value: int) -> SVINT14 {
        SVINT14 { bit_size: Svint14BitSize::smallest_for(value), value: value as i16 }
    }

    /// Pairs a value with the narrowest tier that holds it.
    pub fn from_value(value: i64) -> (res: Result<SVINT14, CdisError>)
        ensures
            SVINT14::in_range(value as int) ==> res == Ok::<SVINT14, CdisError>(
                SVINT14::of_value(value as int),
            ),
            !SVINT14::in_range(value as int) ==> res == Err::<SVINT14, CdisError>(
                CdisError::ValueOutOfRange { family: Family::Svint14, value },
            ),
    {
        if value < -8192 || value > 8191 {
            return Err(CdisError::ValueOutOfRange { family: Family::Svint14, value });
        }
        let value = value as i16;
        Ok(SVINT14 { bit_size: Svint14BitSize::select(value), value })
    }

    /// Encodes `value` at `cursor` in its narrowest tier. Nothing is
    /// written when the value is out of range or the buffer too short.
    pub fn encode(value: i64, buf: &mut BitBuffer, cursor: usize) -> (res: Result<usize, CdisError>)
        ensures
            match res {
                Ok(next) => {
                    &&& SVINT14::in_range(value as int)
                    &&& next == cursor + SVINT14::of_value(value as int).wire_bits().len()
                    &&& next <= MTU_BITS
                    &&& final(buf)@ == overwrite(
                        old(buf)@,
                        cursor as int,
                        SVINT14::of_value(value as int).wire_bits(),
                    )
                },
                Err(e) => {
                    &&& final(buf)@ == old(buf)@
                    &&& if SVINT14::in_range(value as int) {
                        &&& e == CdisError::CapacityExceeded
                        &&& cursor + SVINT14::of_value(value as int).wire_bits().len() > MTU_BITS
                    } else {
                        e == (CdisError::ValueOutOfRange { family: Family::Svint14, value })
                    }
                },
            },
    {
        let v = match SVINT14::from_value(value) {
            Ok(v) => v,
            Err(e) => { return Err(e); },
        };
        proof {
            SVINT14::lemma_of_value(value as int);
        }
        let length = v.bit_length();
        if cursor > MTU_BITS || length > MTU_BITS - cursor {
            return Err(CdisError::CapacityExceeded);
        }
        Ok(v.serialize(buf, cursor))
    }

    /// `of_value` gives a value that can be written, in its narrowest tier.
    pub proof fn lemma_of_value(value: int)
        requires
            SVINT14::in_range(value),
        ensures
            SVINT14::of_value(value).wf(),
            SVINT14::of_value(value).canonical(),
            SVINT14::of_value(value).value == value,
    {
    }

    /// No tier that holds the value is narrower than the one chosen for it.
    pub proof fn lemma_smallest(value: int, tier: Svint14BitSize)
        requires
            tier.min() <= value <= tier.max(),
        ensures
            Svint14BitSize::smallest_for(value).min() <= value,
            value <= Svint14BitSize::smallest_for(value).max(),
            Svint14BitSize::smallest_for(value).width() <= tier.width(),
    {
    }

    /// On the wire the value is its flag, its sign, and then the value
    /// itself or, when negative, its distance from the tier's least value.
    pub proof fn lemma_sign_offset(self)
        requires
            self.wf(),
        ensures
            self.wire_bits() == bits_of(self.bit_size.flag(), 2) + seq![self.value < 0] + bits_of(
                if self.value < 0 {
                    (self.value - self.bit_size.min()) as nat
                } else {
                    self.value as nat
                },
                (self.bit_size.width() - 1) as nat,
            ),
    {
        self.bit_size.lemma_table();
    }

    /// The value takes its flag and its tier's width on the wire.
    pub proof fn lemma_wire_length(self)
        requires
            self.wf(),
        ensures
            self.wire_bits().len() == 2 + self.bit_size.width(),
            self.wire_bits().len() <= 2 + 14,
    {
        lemma_bits_of_len(self.bit_size.flag(), 2);
        self.bit_size.lemma_table();
        lemma_signed_bits(self.bit_size.width(), self.value as int);
    }

    /// A written value reads back as itself, and the reader stops where the
    /// writer did.
    pub proof fn lemma_round_trip(self, bits: Seq<bool>, at: int)
        requires
            self.wf(),
            0 <= at,
            at + self.wire_bits().len() <= bits.len(),
            bits.subrange(at, at + self.wire_bits().len()) == self.wire_bits(),
        ensures
            svint14_spec(bits, at) == Ok::<(SVINT14, int), ParseError>(
                (self, at + self.wire_bits().len()),
            ),
    {
        reveal(svint14_spec);
        self.bit_size.lemma_table();
        lemma_bits_of_len(self.bit_size.flag(), 2);
        lemma_signed_bits(self.bit_size.width(), self.value as int);
        lemma_signed_round_trip(
            bits,
            at,
            2,
            self.bit_size.flag(),
            self.bit_size.width(),
            self.value as int,
        );
    }
}

/// A value with the narrowest tier of the family; a value that no tier
/// holds gets the widest.
impl From<i16> for SVINT14 {
    fn from(value: i16) -> (v: SVINT14) {
        SVINT14 { bit_size: Svint14BitSize::select(value), value }
    }
}

impl vstd::std_specs::convert::FromSpecImpl<i16> for SVINT14 {
    open spec fn obeys_from_spec() -> bool {
        true
    }

    open spec fn from_spec(value: i16) -> SVINT14 {
        SVINT14 { bit_size: Svint14BitSize::smallest_for(value as int), value }
    }
}

impl SerializeCdis for SVINT14 {
    /// The value fits the tier.
    open spec fn wf(&self) -> bool {
        self.bit_size.min() <= self.value <= self.bit_size.max()
    }

    open spec fn wire_bits(&self) -> Seq<bool> {
        signed_wire(2, self.bit_size.flag(), self.bit_size.width(), self.value as int)
    }

    fn is_valid(&self) -> (valid: bool) {
        self.bit_size.min_value() <= self.value && self.value <= self.bit_size.max_value()
    }

    fn bit_length(&self) -> (length: usize)
        ensures
            length == 2 + self.bit_size.width(),
    {
        proof {
            self.bit_size.lemma_table();
            lemma_bits_of_len(self.bit_size.flag(), 2);
            lemma_signed_bits(self.bit_size.width(), self.value as int);
        }
        Svint14BitSize::FLAG_SIZE + self.bit_size()
    }

    fn serialize(&self, buf: &mut BitBuffer, cursor: usize) -> (next: usize) {
        proof {
            self.bit_size.lemma_table();
            lemma_bits_of_len(self.bit_size.flag(), 2);
            lemma_signed_bits(self.bit_size.width(), self.value as int);
        }
        let after_flag = write_value_with_length(
            buf,
            cursor,
            Svint14BitSize::FLAG_SIZE,
            self.flag_bits_value() as u32,
        );
        let next = write_signed_value(
            buf,
            after_flag,
            self.bit_size(),
            self.min_value() as i32,
            self.value as i32,
        );
        proof {
            lemma_overwrite_twice(
                old(buf)@,
                cursor as int,
                bits_of(self.bit_size.flag(), 2),
                signed_bits(self.bit_size.width(), self.value as int),
            );
        }
        next
    }
}

/// What parsing a SVINT14 at `at` gives: the value with the tier that its
/// flag names, and the position after it.
#[verifier::opaque]
pub open spec fn svint14_spec(bits: Seq<bool>, at: int) -> Result<(SVINT14, int), ParseError> {
    match read_spec(bits, at, 2) {
        Err(e) => Err(e),
        Ok((flag, after_flag)) => {
            let bit_size = Svint14BitSize::of_flag(flag);
            match read_signed_spec(bits, after_flag, bit_size.width()) {
                Err(e) => Err(e),
                Ok((value, next)) => Ok((SVINT14 { bit_size, value: value as i16 }, next)),
            }
        },
    }
}

/// Parses a SVINT14: the flag, the sign, and the magnitude in the width that
/// the flag names.
pub fn svint14<'a>(input: BitInput<'a>) -> (res: Result<(BitInput<'a>, SVINT14), ParseError>)
    requires
        input.0@.len() <= MTU_BYTES,
    ensures
        match svint14_spec(input_bits(input), input.1 as int) {
            Ok((v, next)) => res == Ok::<(BitInput<'a>, SVINT14), ParseError>(
                ((input.0, next as usize), v),
            ) && v.wf() && input.1 <= next <= input_bits(input).len(),
            Err(e) => res == Err::<(BitInput<'a>, SVINT14), ParseError>(e),
        },
{
    let ghost bits = input_bits(input);
    proof {
        reveal(svint14_spec);
    }
    let (after_flag, flag) = match read_value_with_length(input, Svint14BitSize::FLAG_SIZE) {
        Ok(r) => r,
        Err(e) => { return Err(e); },
    };
    proof {
        lemma_value_of_bound(bits.subrange(input.1 as int, input.1 + 2));
        lemma2_to64();
    }
    let bit_size = match Svint14BitSize::from_flag(flag as u8) {
        Ok(t) => t,
        Err(e) => { return Err(e); },
    };
    proof {
        bit_size.lemma_table();
    }
    let (rest, value) = match read_signed_value(
        after_flag,
        bit_size.bit_size(),
        bit_size.min_value() as i32,
    ) {
        Ok(r) => r,
        Err(e) => { return Err(e); },
    };
    Ok((rest, SVINT14::new(bit_size, value as i16)))
}

/// The tiers of SVINT16: a flag of 2 bits picks a width of 8, 12, 13 or 16 bits,
/// the sign bit counted in.
#[derive(Clone, Copy, Debug, PartialEq, Eq, Structural)]
pub enum Svint16BitSize {
    Eight,
    Twelve,
    Thirteen,
    Sixteen,
}

impl Svint16BitSize {
    /// Width of the flag field.
    pub const FLAG_SIZE: usize = 2;

    /// The tier's width in bits.
    pub open spec fn width(self) -> nat {
        match self {
            Svint16BitSize::Eight => 8,
            Svint16BitSize::Twelve => 12,
            Svint16BitSize::Thirteen => 13,
            Svint16BitSize::Sixteen => 16,
        }
    }

    /// The tier's flag code.
    pub open spec fn flag(self) -> nat {
        match self {
            Svint16BitSize::Eight => 0,
            Svint16BitSize::Twelve => 1,
            Svint16BitSize::Thirteen => 2,
            Svint16BitSize::Sixteen => 3,
        }
    }

    /// The least value that the tier holds.
    pub open spec fn min(self) -> int {
        match self {
            Svint16BitSize::Eight => -128,
            Svint16BitSize::Twelve => -2048,
            Svint16BitSize::Thirteen => -4096,
            Svint16BitSize::Sixteen => -32768,
        }
    }

    /// The greatest value that the tier holds.
    pub open spec fn max(self) -> int {
        match self {
            Svint16BitSize::Eight => 127,
            Svint16BitSize::Twelve => 2047,
            Svint16BitSize::Thirteen => 4095,
            Svint16BitSize::Sixteen => 32767,
        }
    }

    /// The tier that a flag code names; codes past the table name the last.
    pub open spec fn of_flag(flag: nat) -> Svint16BitSize {
        if flag == 0 {
            Svint16BitSize::Eight
        } else if flag == 1 {
            Svint16BitSize::Twelve
        } else if flag == 2 {
            Svint16BitSize::Thirteen
        } else {
            Svint16BitSize::Sixteen
        }
    }

    /// The narrowest tier that holds `value`.
    pub open spec fn smallest_for(value: int) -> Svint16BitSize {
        if -128 <= value && value <= 127 {
            Svint16BitSize::Eight
        } else if -2048 <= value && value <= 2047 {
            Svint16BitSize::Twelve
        } else if -4096 <= value && value <= 4095 {
            Svint16BitSize::Thirteen
        } else {
            Svint16BitSize::Sixteen
        }
    }

    pub fn bit_size(&self) -> (bits: usize)
        ensures
            bits == self.width(),
    {
        match self {
            Svint16BitSize::Eight => 8,
            Svint16BitSize::Twelve => 12,
            Svint16BitSize::Thirteen => 13,
            Svint16BitSize::Sixteen => 16,
        }
    }

    pub fn flag_bits_value(&self) -> (flag: u8)
        ensures
            flag == self.flag(),
    {
        match self {
            Svint16BitSize::Eight => 0,
            Svint16BitSize::Twelve => 1,
            Svint16BitSize::Thirteen => 2,
            Svint16BitSize::Sixteen => 3,
        }
    }

    pub fn min_value(&self) -> (min: i16)
        ensures
            min == self.min(),
    {
        match self {
            Svint16BitSize::Eight => -128,
            Svint16BitSize::Twelve => -2048,
            Svint16BitSize::Thirteen => -4096,
            Svint16BitSize::Sixteen => -32768,
        }
    }

    pub fn max_value(&self) -> (max: i16)
        ensures
            max == self.max(),
    {
        match self {
            Svint16BitSize::Eight => 127,
            Svint16BitSize::Twelve => 2047,
            Svint16BitSize::Thirteen => 4095,
            Svint16BitSize::Sixteen => 32767,
        }
    }

    /// Looks a flag code up in the table.
    pub fn from_flag(flag: u8) -> (res: Result<Svint16BitSize, ParseError>)
        ensures
            flag < 4 ==> res == Ok::<Svint16BitSize, ParseError>(
                Svint16BitSize::of_flag(flag as nat),
            ),
            flag >= 4 ==> res == Err::<Svint16BitSize, ParseError>(
                ParseError::UnknownTierFlag { family: Family::Svint16, flag },
            ),
    {
        match flag {
            0 => Ok(Svint16BitSize::Eight),
            1 => Ok(Svint16BitSize::Twelve),
            2 => Ok(Svint16BitSize::Thirteen),
            3 => Ok(Svint16BitSize::Sixteen),
            _ => Err(ParseError::UnknownTierFlag { family: Family::Svint16, flag }),
        }
    }

    /// Picks the narrowest tier that holds `value`.
    pub fn select(value: i16) -> (tier: Svint16BitSize)
        ensures
            tier == Svint16BitSize::smallest_for(value as int),
    {
        if -128 <= value && value <= 127 {
            Svint16BitSize::Eight
        } else if -2048 <= value && value <= 2047 {
            Svint16BitSize::Twelve
        } else if -4096 <= value && value <= 4095 {
            Svint16BitSize::Thirteen
        } else {
            Svint16BitSize::Sixteen
        }
    }

    pub proof fn lemma_table(self)
        ensures
            self.flag() < pow2(2),
            Svint16BitSize::of_flag(self.flag()) == self,
            self.min() == least_of_width(self.width()),
            self.max() == -self.min() - 1,
            3 <= self.width() <= 16,
    {
        lemma2_to64();
    }
}

/// A signed integer of up to sixteen bits with the tier that carries it.
#[derive(Clone, Copy, Debug, PartialEq, Eq, Structural)]
pub struct SVINT16 {
    pub bit_size: Svint16BitSize,
    pub value: i16,
}

impl SVINT16 {
    pub fn new(bit_size: Svint16BitSize, value: i16) -> (v: SVINT16)
        ensures
            v == (SVINT16 { bit_size, value }),
    {
        SVINT16 { bit_size, value }
    }

    pub fn bit_size(&self) -> (bits: usize)
        ensures
            bits == self.bit_size.width(),
    {
        self.bit_size.bit_size()
    }

    pub fn flag_bits_value(&self) -> (flag: u8)
        ensures
            flag == self.bit_size.flag(),
    {
        self.bit_size.flag_bits_value()
    }

    /// The least value of the tier.
    pub fn min_value(&self) -> (min: i16)
        ensures
            min == self.bit_size.min(),
    {
        self.bit_size.min_value()
    }

    /// The greatest value of the tier.
    pub fn max_value(&self) -> (max: i16)
        ensures
            max == self.bit_size.max(),
    {
        self.bit_size.max_value()
    }

    /// The values that the family can carry.
    pub open spec fn in_range(value: int) -> bool {
        -32768 <= value <= 32767
    }

    /// The tier is the narrowest that holds the value.
    pub open spec fn canonical(self) -> bool {
        self.bit_size == Svint16BitSize::smallest_for(self.value as int)
    }

    /// What `from_value` makes of a value in range.
    pub open spec fn of_value(value: int) -> SVINT16 {
        SVINT16 { bit_size: Svint16BitSize::smallest_for(value), value: value as i16 }
    }

    /// Pairs a value with the narrowest tier that holds it.
    pub fn from_value(value: i64) -> (res: Result<SVINT16, CdisError>)
        ensures
            SVINT16::in_range(value as int) ==> res == Ok::<SVINT16, CdisError>(
                SVINT16::of_value(value as int),
            ),
            !SVINT16::in_range(value as int) ==> res == Err::<SVINT16, CdisError>(
                CdisError::ValueOutOfRange { family: Family::Svint16, value },
            ),
    {
        if value < -32768 || value > 32767 {
            return Err(CdisError::ValueOutOfRange { family: Family::Svint16, value });
        }
        let value = value as i16;
        Ok(SVINT16 { bit_size: Svint16BitSize::select(value), value })
    }

    /// Encodes `value` at `cursor` in its narrowest tier. Nothing is
    /// written when the value is out of range or the buffer too short.
    pub fn encode(value: i64, buf: &mut BitBuffer, cursor: usize) -> (res: Result<usize, CdisError>)
        ensures
            match res {
                Ok(next) => {
                    &&& SVINT16::in_range(value as int)
                    &&& next == cursor + SVINT16::of_value(value as int).wire_bits().len()
                    &&& next <= MTU_BITS
                    &&& final(buf)@ == overwrite(
                        old(buf)@,
                        cursor as int,
                        SVINT16::of_value(value as int).wire_bits(),
                    )
                },
                Err(e) => {
                    &&& final(buf)@ == old(buf)@
                    &&& if SVINT16::in_range(value as int) {
                        &&& e == CdisError::CapacityExceeded
                        &&& cursor + SVINT16::of_value(value as int).wire_bits().len() > MTU_BITS
                    } else {
                        e == (CdisError::ValueOutOfRange { family: Family::Svint16, value })
                    }
                },
            },
    {
        let v = match SVINT16::from_value(value) {
            Ok(v) => v,
            Err(e) => { return Err(e); },
        };
        proof {
            SVINT16::lemma_of_value(value as int);
        }
        let length = v.bit_length();
        if cursor > MTU_BITS || length > MTU_BITS - cursor {
            return Err(CdisError::CapacityExceeded);
        }
        Ok(v.serialize(buf, cursor))
    }

    /// `of_value` gives a value that can be written, in its narrowest tier.
    pub proof fn lemma_of_value(value: int)
        requires
            SVINT16::in_range(value),
        ensures
            SVINT16::of_value(value).wf(),
            SVINT16::of_value(value).canonical(),
            SVINT16::of_value(value).value == value,
    {
    }

    /// No tier that holds the value is narrower than the one chosen for it.
    pub proof fn lemma_smallest(value: int, tier: Svint16BitSize)
        requires
            tier.min() <= value <= tier.max(),
        ensures
            Svint16BitSize::smallest_for(value).min() <= value,
            value <= Svint16BitSize::smallest_for(value).max(),
            Svint16BitSize::smallest_for(value).width() <= tier.width(),
    {
    }

    /// On the wire the value is its flag, its sign, and then the value
    /// itself or, when negative, its distance from the tier's least value.
    pub proof fn lemma_sign_offset(self)
        requires
            self.wf(),
        ensures
            self.wire_bits() == bits_of(self.bit_size.flag(), 2) + seq![self.value < 0] + bits_of(
                if self.value < 0 {
                    (self.value - self.bit_size.min()) as nat
                } else {
                    self.value as nat
                },
                (self.bit_size.width() - 1) as nat,
            ),
    {
        self.bit_size.lemma_table();
    }

    /// The value takes its flag and its tier's width on the wire.
    pub proof fn lemma_wire_length(self)
        requires
            self.wf(),
        ensures
            self.wire_bits().len() == 2 + self.bit_size.width(),
            self.wire_bits().len() <= 2 + 16,
    {
        lemma_bits_of_len(self.bit_size.flag(), 2);
        self.bit_size.lemma_table();
        lemma_signed_bits(self.bit_size.width(), self.value as int);
    }

    /// A written value reads back as itself, and the reader stops where the
    /// writer did.
    pub proof fn lemma_round_trip(self, bits: Seq<bool>, at: int)
        requires
            self.wf(),
            0 <= at,
            at + self.wire_bits().len() <= bits.len(),
            bits.subrange(at, at + self.wire_bits().len()) == self.wire_bits(),
        ensures
            svint16_spec(bits, at) == Ok::<(SVINT16, int), ParseError>(
                (self, at + self.wire_bits().len()),
            ),
    {
        reveal(svint16_spec);
        self.bit_size.lemma_table();
        lemma_bits_of_len(self.bit_size.flag(), 2);
        lemma_signed_bits(self.bit_size.width(), self.value as int);
        lemma_signed_round_trip(
            bits,
            at,
            2,
            self.bit_size.flag(),
            self.bit_size.width(),
            self.value as int,
        );
    }
}

/// A value with the narrowest tier of the family; a value that no tier
/// holds gets the widest.
impl From<i16> for SVINT16 {
    fn from(value: i16) -> (v: SVINT16) {
        SVINT16 { bit_size: Svint16BitSize::select(value), value }
    }
}

impl vstd::std_specs::convert::FromSpecImpl<i16> for SVINT16 {
    open spec fn obeys_from_spec() -> bool {
        true
    }

    open spec fn from_spec(value: i16) -> SVINT16 {
        SVINT16 { bit_size: Svint16BitSize::smallest_for(value as int), value }
    }
}

impl SerializeCdis for SVINT16 {
    /// The value fits the tier.
    open spec fn wf(&self) -> bool {
        self.bit_size.min() <= self.value <= self.bit_size.max()
    }

    open spec fn wire_bits(&self) -> Seq<bool> {
        signed_wire(2, self.bit_size.flag(), self.bit_size.width(), self.value as int)
    }

    fn is_valid(&self) -> (valid: bool) {
        self.bit_size.min_value() <= self.value && self.value <= self.bit_size.max_value()
    }

    fn bit_length(&self) -> (length: usize)
        ensures
            length == 2 + self.bit_size.width(),
    {
        proof {
            self.bit_size.lemma_table();
            lemma_bits_of_len(self.bit_size.flag(), 2);
            lemma_signed_bits(self.bit_size.width(), self.value as int);
        }
        Svint16BitSize::FLAG_SIZE + self.bit_size()
    }

    fn serialize(&self, buf: &mut BitBuffer, cursor: usize) -> (next: usize) {
        proof {
            self.bit_size.lemma_table();
            lemma_bits_of_len(self.bit_size.flag(), 2);
            lemma_signed_bits(self.bit_size.width(), self.value as int);
        }
        let after_flag = write_value_with_length(
            buf,
            cursor,
            Svint16BitSize::FLAG_SIZE,
            self.flag_bits_value() as u32,
        );
        let next = write_signed_value(
            buf,
            after_flag,
            self.bit_size(),
            self.min_value() as i32,
            self.value as i32,
        );
        proof {
            lemma_overwrite_twice(
                old(buf)@,
                cursor as int,
                bits_of(self.bit_size.flag(), 2),
                signed_bits(self.bit_size.width(), self.value as int),
            );
        }
        next
    }
}

/// What parsing a SVINT16 at `at` gives: the value with the tier that its
/// flag names, and the position after it.
#[verifier::opaque]
pub open spec fn svint16_spec(bits: Seq<bool>, at: int) -> Result<(SVINT16, int), ParseError> {
    match read_spec(bits, at, 2) {
        Err(e) => Err(e),
        Ok((flag, after_flag)) => {
            let bit_size = Svint16BitSize::of_flag(flag);
            match read_signed_spec(bits, after_flag, bit_size.width()) {
                Err(e) => Err(e),
                Ok((value, next)) => Ok((SVINT16 { bit_size, value: value as i16 }, next)),
            }
        },
    }
}

/// Parses a SVINT16: the flag, the sign, and the magnitude in the width that
/// the flag names.
pub fn svint16<'a>(input: BitInput<'a>) -> (res: Result<(BitInput<'a>, SVINT16), ParseError>)
    requires
        input.0@.len() <= MTU_BYTES,
    ensures
        match svint16_spec(input_bits(input), input.1 as int) {
            Ok((v, next)) => res == Ok::<(BitInput<'a>, SVINT16), ParseError>(
                ((input.0, next as usize), v),
            ) && v.wf() && input.1 <= next <= input_bits(input).len(),
            Err(e) => res == Err::<(BitInput<'a>, SVINT16), ParseError>(e),
        },
{
    let ghost bits = input_bits(input);
    proof {
        reveal(svint16_spec);
    }
    let (after_flag, flag) = match read_value_with_length(input, Svint16BitSize::FLAG_SIZE) {
        Ok(r) => r,
        Err(e) => { return Err(e); },
    };
    proof {
        lemma_value_of_bound(bits.subrange(input.1 as int, input.1 + 2));
        lemma2_to64();
    }
    let bit_size = match Svint16BitSize::from_flag(flag as u8) {
        Ok(t) => t,
        Err(e) => { return Err(e); },
    };
    proof {
        bit_size.lemma_table();
    }
    let (rest, value) = match read_signed_value(
        after_flag,
        bit_size.bit_size(),
        bit_size.min_value() as i32,
    ) {
        Ok(r) => r,
        Err(e) => { return Err(e); },
    };
    Ok((rest, SVINT16::new(bit_size, value as i16)))
}

/// The tiers of SVINT24: a flag of 2 bits picks a width of 16, 19, 21 or 24 bits,
/// the sign bit counted in.
#[derive(Clone, Copy, Debug, PartialEq, Eq, Structural)]
pub enum Svint24BitSize {
    Sixteen,
    Nineteen,
    TwentyOne,
    TwentyFour,
}

impl Svint24BitSize {
    /// Width of the flag field.
    pub const FLAG_SIZE: usize = 2;

    /// The tier's width in bits.
    pub open spec fn width(self) -> nat {
        match self {
            Svint24BitSize::Sixteen => 16,
            Svint24BitSize::Nineteen => 19,
            Svint24BitSize::TwentyOne => 21,
            Svint24BitSize::TwentyFour => 24,
        }
    }

    /// The tier's flag code.
    pub open spec fn flag(self) -> nat {
        match self {
            Svint24BitSize::Sixteen => 0,
            Svint24BitSize::Nineteen => 1,
            Svint24BitSize::TwentyOne => 2,
            Svint24BitSize::TwentyFour => 3,
        }
    }

    /// The least value that the tier holds.
    pub open spec fn min(self) -> int {
        match self {
            Svint24BitSize::Sixteen => -32768,
            Svint24BitSize::Nineteen => -262144,
            Svint24BitSize::TwentyOne => -1048576,
            Svint24BitSize::TwentyFour => -8388608,
        }
    }

    /// The greatest value that the tier holds.
    pub open spec fn max(self) -> int {
        match self {
            Svint24BitSize::Sixteen => 32767,
            Svint24BitSize::Nineteen => 262143,
            Svint24BitSize::TwentyOne => 1048575,
            Svint24BitSize::TwentyFour => 8388607,
        }
    }

    /// The tier that a flag code names; codes past the table name the last.
    pub open spec fn of_flag(flag: nat) -> Svint24BitSize {
        if flag == 0 {
            Svint24BitSize::Sixteen
        } else if flag == 1 {
            Svint24BitSize::Nineteen
        } else if flag == 2 {
            Svint24BitSize::TwentyOne
        } else {
            Svint24BitSize::TwentyFour
        }
    }

    /// The narrowest tier that holds `value`.
    pub open spec fn smallest_for(value: int) -> Svint24BitSize {
        if -32768 <= value && value <= 32767 {
            Svint24BitSize::Sixteen
        } else if -262144 <= value && value <= 262143 {
            Svint24BitSize::Nineteen
        } else if -1048576 <= value && value <= 1048575 {
            Svint24BitSize::TwentyOne
        } else {
            Svint24BitSize::TwentyFour
        }
    }

    pub fn bit_size(&self) -> (bits: usize)
        ensures
            bits == self.width(),
    {
        match self {
            Svint24BitSize::Sixteen => 16,
            Svint24BitSize::Nineteen => 19,
            Svint24BitSize::TwentyOne => 21,
            Svint24BitSize::TwentyFour => 24,
        }
    }

    pub fn flag_bits_value(&self) -> (flag: u8)
        ensures
            flag == self.flag(),
    {
        match self {
            Svint24BitSize::Sixteen => 0,
            Svint24BitSize::Nineteen => 1,
            Svint24BitSize::TwentyOne => 2,
            Svint24BitSize::TwentyFour => 3,
        }
    }

    pub fn min_value(&self) -> (min: i32)
        ensures
            min == self.min(),
    {
        match self {
            Svint24BitSize::Sixteen => -32768,
            Svint24BitSize::Nineteen => -262144,
            Svint24BitSize::TwentyOne => -1048576,
            Svint24BitSize::TwentyFour => -8388608,
        }
    }

    pub fn max_value(&self) -> (max: i32)
        ensures
            max == self.max(),
    {
        match self {
            Svint24BitSize::Sixteen => 32767,
            Svint24BitSize::Nineteen => 262143,
            Svint24BitSize::TwentyOne => 1048575,
            Svint24BitSize::TwentyFour => 8388607,
        }
    }

    /// Looks a flag code up in the table.
    pub fn from_flag(flag: u8) -> (res: Result<Svint24BitSize, ParseError>)
        ensures
            flag < 4 ==> res == Ok::<Svint24BitSize, ParseError>(
                Svint24BitSize::of_flag(flag as nat),
            ),
            flag >= 4 ==> res == Err::<Svint24BitSize, ParseError>(
                ParseError::UnknownTierFlag { family: Family::Svint24, flag },
            ),
    {
        match flag {
            0 => Ok(Svint24BitSize::Sixteen),
            1 => Ok(Svint24BitSize::Nineteen),
            2 => Ok(Svint24BitSize::TwentyOne),
            3 => Ok(Svint24BitSize::TwentyFour),
            _ => Err(ParseError::UnknownTierFlag { family: Family::Svint24, flag }),
        }
    }

    /// Picks the narrowest tier that holds `value`.
    pub fn select(value: i32) -> (tier: Svint24BitSize)
        ensures
            tier == Svint24BitSize::smallest_for(value as int),
    {
        if -32768 <= value && value <= 32767 {
            Svint24BitSize::Sixteen
        } else if -262144 <= value && value <= 262143 {
            Svint24BitSize::Nineteen
        } else if -1048576 <= value && value <= 1048575 {
            Svint24BitSize::TwentyOne
        } else {
            Svint24BitSize::TwentyFour
        }
    }

    pub proof fn lemma_table(self)
        ensures
            self.flag() < pow2(2),
            Svint24BitSize::of_flag(self.flag()) == self,
            self.min() == least_of_width(self.width()),
            self.max() == -self.min() - 1,
            3 <= self.width() <= 24,
    {
        lemma2_to64();
    }
}

/// A signed integer of up to twenty-four bits with the tier that carries it.
#[derive(Clone, Copy, Debug, PartialEq, Eq, Structural)]
pub struct SVINT24 {
    pub bit_size: Svint24BitSize,
    pub value: i32,
}

impl SVINT24 {
    pub fn new(bit_size: Svint24BitSize, value: i32) -> (v: SVINT24)
        ensures
            v == (SVINT24 { bit_size, value }),
    {
        SVINT24 { bit_size, value }
    }

    pub fn bit_size(&self) -> (bits: usize)
        ensures
            bits == self.bit_size.width(),
    {
        self.bit_size.bit_size()
    }

    pub fn flag_bits_value(&self) -> (flag: u8)
        ensures
            flag == self.bit_size.flag(),
    {
        self.bit_size.flag_bits_value()
    }

    /// The least value of the tier.
    pub fn min_value(&self) -> (min: i32)
        ensures
            min == self.bit_size.min(),
    {
        self.bit_size.min_value()
    }

    /// The greatest value of the tier.
    pub fn max_value(&self) -> (max: i32)
        ensures
            max == self.bit_size.max(),
    {
        self.bit_size.max_value()
    }

    /// The values that the family can carry.
    pub open spec fn in_range(value: int) -> bool {
        -8388608 <= value <= 8388607
    }

    /// The tier is the narrowest that holds the value.
    pub open spec fn canonical(self) -> bool {
        self.bit_size == Svint24BitSize::smallest_for(self.value as int)
    }

    /// What `from_value` makes of a value in range.
    pub open spec fn of_value(value: int) -> SVINT24 {
        SVINT24 { bit_size: Svint24BitSize::smallest_for(value), value: value as i32 }
    }

    /// Pairs a value with the narrowest tier that holds it.
    pub fn from_value(value: i64) -> (res: Result<SVINT24, CdisError>)
        ensures
            SVINT24::in_range(value as int) ==> res == Ok::<SVINT24, CdisError>(
                SVINT24::of_value(value as int),
            ),
            !SVINT24::in_range(value as int) ==> res == Err::<SVINT24, CdisError>(
                CdisError::ValueOutOfRange { family: Family::Svint24, value },
            ),
    {
        if value < -8388608 || value > 8388607 {
            return Err(CdisError::ValueOutOfRange { family: Family::Svint24, value });
        }
        let value = value as i32;
        Ok(SVINT24 { bit_size: Svint24BitSize::select(value), value })
    }

    /// Encodes `value` at `cursor` in its narrowest tier. Nothing is
    /// written when the value is out of range or the buffer too short.
    pub fn encode(value: i64, buf: &mut BitBuffer, cursor: usize) -> (res: Result<usize, CdisError>)
        ensures
            match res {
                Ok(next) => {
                    &&& SVINT24::in_range(value as int)
                    &&& next == cursor + SVINT24::of_value(value as int).wire_bits().len()
                    &&& next <= MTU_BITS
                    &&& final(buf)@ == overwrite(
                        old(buf)@,
                        cursor as int,
                        SVINT24::of_value(value as int).wire_bits(),
                    )
                },
                Err(e) => {
                    &&& final(buf)@ == old(buf)@
                    &&& if SVINT24::in_range(value as int) {
                        &&& e == CdisError::CapacityExceeded
                        &&& cursor + SVINT24::of_value(value as int).wire_bits().len() > MTU_BITS
                    } else {
                        e == (CdisError::ValueOutOfRange { family: Family::Svint24, value })
                    }
                },
            },
    {
        let v = match SVINT24::from_value(value) {
            Ok(v) => v,
            Err(e) => { return Err(e); },
        };
        proof {
            SVINT24::lemma_of_value(value as int);
        }
        let length = v.bit_length();
        if cursor > MTU_BITS || length > MTU_BITS - cursor {
            return Err(CdisError::CapacityExceeded);
        }
        Ok(v.serialize(buf, cursor))
    }

    /// `of_value` gives a value that can be written, in its narrowest tier.
    pub proof fn lemma_of_value(value: int)
        requires
            SVINT24::in_range(value),
        ensures
            SVINT24::of_value(value).wf(),
            SVINT24::of_value(value).canonical(),
            SVINT24::of_value(value).value == value,
    {
    }

    /// No tier that holds the value is narrower than the one chosen for it.
    pub proof fn lemma_smallest(value: int, tier: Svint24BitSize)
        requires
            tier.min() <= value <= tier.max(),
        ensures
            Svint24BitSize::smallest_for(value).min() <= value,
            value <= Svint24BitSize::smallest_for(value).max(),
            Svint24BitSize::smallest_for(value).width() <= tier.width(),
    {
    }

    /// On the wire the value is its flag, its sign, and then the value
    /// itself or, when negative, its distance from the tier's least value.
    pub proof fn lemma_sign_offset(self)
        requires
            self.wf(),
        ensures
            self.wire_bits() == bits_of(self.bit_size.flag(), 2) + seq![self.value < 0] + bits_of(
                if self.value < 0 {
                    (self.value - self.bit_size.min()) as nat
                } else {
                    self.value as nat
                },
                (self.bit_size.width() - 1) as nat,
            ),
    {
        self.bit_size.lemma_table();
    }

    /// The value takes its flag and its tier's width on the wire.
    pub proof fn lemma_wire_length(self)
        requires
            self.wf(),
        ensures
            self.wire_bits().len() == 2 + self.bit_size.width(),
            self.wire_bits().len() <= 2 + 24,
    {
        lemma_bits_of_len(self.bit_size.flag(), 2);
        self.bit_size.lemma_table();
        lemma_signed_bits(self.bit_size.width(), self.value as int);
    }

    /// A written value reads back as itself, and the reader stops where the
    /// writer did.
    pub proof fn lemma_round_trip(self, bits: Seq<bool>, at: int)
        requires
            self.wf(),
            0 <= at,
            at + self.wire_bits().len() <= bits.len(),
            bits.subrange(at, at + self.wire_bits().len()) == self.wire_bits(),
        ensures
            svint24_spec(bits, at) == Ok::<(SVINT24, int), ParseError>(
                (self, at + self.wire_bits().len()),
            ),
    {
        reveal(svint24_spec);
        self.bit_size.lemma_table();
        lemma_bits_of_len(self.bit_size.flag(), 2);
        lemma_signed_bits(self.bit_size.width(), self.value as int);
        lemma_signed_round_trip(
            bits,
            at,
            2,
            self.bit_size.flag(),
            self.bit_size.width(),
            self.value as int,
        );
    }
}

/// A value with the narrowest tier of the family; a value that no tier
/// holds gets the widest.
impl From<i32> for SVINT24 {
    fn from(value: i32) -> (v: SVINT24) {
        SVINT24 { bit_size: Svint24BitSize::select(value), value }
    }
}

impl vstd::std_specs::convert::FromSpecImpl<i32> for SVINT24 {
    open spec fn obeys_from_spec() -> bool {
        true
    }

    open spec fn from_spec(value: i32) -> SVINT24 {
        SVINT24 { bit_size: Svint24BitSize::smallest_for(value as int), value }
    }
}

impl SerializeCdis for SVINT24 {
    /// The value fits the tier.
    open spec fn wf(&self) -> bool {
        self.bit_size.min() <= self.value <= self.bit_size.max()
    }

    open spec fn wire_bits(&self) -> Seq<bool> {
        signed_wire(2, self.bit_size.flag(), self.bit_size.width(), self.value as int)
    }

    fn is_valid(&self) -> (valid: bool) {
        self.bit_size.min_value() <= self.value && self.value <= self.bit_size.max_value()
    }

    fn bit_length(&self) -> (length: usize)
        ensures
            length == 2 + self.bit_size.width(),
    {
        proof {
            self.bit_size.lemma_table();
            lemma_bits_of_len(self.bit_size.flag(), 2);
            lemma_signed_bits(self.bit_size.width(), self.value as int);
        }
        Svint24BitSize::FLAG_SIZE + self.bit_size()
    }

    fn serialize(&self, buf: &mut BitBuffer, cursor: usize) -> (next: usize) {
        proof {
            self.bit_size.lemma_table();
            lemma_bits_of_len(self.bit_size.flag(), 2);
            lemma_signed_bits(self.bit_size.width(), self.value as int);
        }
        let after_flag = write_value_with_length(
            buf,
            cursor,
            Svint24BitSize::FLAG_SIZE,
            self.flag_bits_value() as u32,
        );
        let next = write_signed_value(
            buf,
            after_flag,
            self.bit_size(),
            self.min_value() as i32,
            self.value as i32,
        );
        proof {
            lemma_overwrite_twice(
                old(buf)@,
                cursor as int,
                bits_of(self.bit_size.flag(), 2),
                signed_bits(self.bit_size.width(), self.value as int),
            );
        }
        next
    }
}

/// What parsing a SVINT24 at `at` gives: the value with the tier that its
/// flag names, and the position after it.
#[verifier::opaque]
pub open spec fn svint24_spec(bits: Seq<bool>, at: int) -> Result<(SVINT24, int), ParseError> {
    match read_spec(bits, at, 2) {
        Err(e) => Err(e),
        Ok((flag, after_flag)) => {
            let bit_size = Svint24BitSize::of_flag(flag);
            match read_signed_spec(bits, after_flag, bit_size.width()) {
                Err(e) => Err(e),
                Ok((value, next)) => Ok((SVINT24 { bit_size, value: value as i32 }, next)),
            }
        },
    }
}

/// Parses a SVINT24: the flag, the sign, and the magnitude in the width that
/// the flag names.
pub fn svint24<'a>(input: BitInput<'a>) -> (res: Result<(BitInput<'a>, SVINT24), ParseError>)
    requires
        input.0@.len() <= MTU_BYTES,
    ensures
        match svint24_spec(input_bits(input), input.1 as int) {
            Ok((v, next)) => res == Ok::<(BitInput<'a>, SVINT24), ParseError>(
                ((input.0, next as usize), v),
            ) && v.wf() && input.1 <= next <= input_bits(input).len(),
            Err(e) => res == Err::<(BitInput<'a>, SVINT24), ParseError>(e),
        },
{
    let ghost bits = input_bits(input);
    proof {
        reveal(svint24_spec);
    }
    let (after_flag, flag) = match read_value_with_length(input, Svint24BitSize::FLAG_SIZE) {
        Ok(r) => r,
        Err(e) => { return Err(e); },
    };
    proof {
        lemma_value_of_bound(bits.subrange(input.1 as int, input.1 + 2));
        lemma2_to64();
    }
    let bit_size = match Svint24BitSize::from_flag(flag as u8) {
        Ok(t) => t,
        Err(e) => { return Err(e); },
    };
    proof {
        bit_size.lemma_table();
    }
    let (rest, value) = match read_signed_value(
        after_flag,
        bit_size.bit_size(),
        bit_size.min_value() as i32,
    ) {
        Ok(r) => r,
        Err(e) => { return Err(e); },
    };
    Ok((rest, SVINT24::new(bit_size, value as i32)))
}

} // verus!
