//! The unsigned variable-precision integers.

use vstd::prelude::*;
use vstd::arithmetic::power2::{pow2, lemma2_to64};
use crate::constants::{MTU_BYTES, MTU_BITS};
use crate::bits::{bits_of, overwrite, lemma_bits_of_len, lemma_value_of_bound,
    lemma_overwrite_twice};
use crate::buffer::{BitBuffer, BitInput, input_bits, read_spec, read_value_with_length,
    write_value_with_length};
use crate::codec::SerializeCdis;
use crate::error::{CdisError, Family, ParseError};
use crate::varint::{unsigned_wire, lemma_unsigned_round_trip};

verus! {

/// The tiers of UVINT8: a flag of 1 bit picks a width of 4 or 8 bits.
#[derive(Clone, Copy, Debug, PartialEq, Eq, Structural)]
pub enum Uvint8BitSize {
    Four,
    Eight,
}

impl Uvint8BitSize {
    /// Width of the flag field.
    pub const FLAG_BITS: usize = 1;

    /// The tier's width in bits.
    pub open spec fn width(self) -> nat {
        match self {
            Uvint8BitSize::Four => 4,
            Uvint8BitSize::Eight => 8,
        }
    }

    /// The tier's flag code.
    pub open spec fn flag(self) -> nat {
        match self {
            Uvint8BitSize::Four => 0,
            Uvint8BitSize::Eight => 1,
        }
    }

    /// The greatest value that the tier holds.
    pub open spec fn max(self) -> nat {
        match self {
            Uvint8BitSize::Four => 15,
            Uvint8BitSize::Eight => 255,
        }
    }

    /// The tier that a flag code names; codes past the table name the last.
    pub open spec fn of_flag(flag: nat) -> Uvint8BitSize {
        if flag == 0 {
            Uvint8BitSize::Four
        } else {
            Uvint8BitSize::Eight
        }
    }

    /// The narrowest tier that holds `value`.
    pub open spec fn smallest_for(value: int) -> Uvint8BitSize {
        if value <= 15 {
            Uvint8BitSize::Four
        } else {
            Uvint8BitSize::Eight
        }
    }

    pub fn bit_size(&self) -> (bits: usize)
        ensures
            bits == self.width(),
    {
        match self {
            Uvint8BitSize::Four => 4,
            Uvint8BitSize::Eight => 8,
        }
    }

    pub fn flag_bits_value(&self) -> (flag: u8)
        ensures
            flag == self.flag(),
    {
        match self {
            Uvint8BitSize::Four => 0,
            Uvint8BitSize::Eight => 1,
        }
    }

    pub fn max_value(&self) -> (max: u8)
        ensures
            max == self.max(),
    {
        match self {
            Uvint8BitSize::Four => 15,
            Uvint8BitSize::Eight => 255,
        }
    }

    /// Looks a flag code up in the table.
    pub fn from_flag(flag: u8) -> (res: Result<Uvint8BitSize, ParseError>)
        ensures
            flag < 2 ==> res == Ok::<Uvint8BitSize, ParseError>(
                Uvint8BitSize::of_flag(flag as nat),
            ),
            flag >= 2 ==> res == Err::<Uvint8BitSize, ParseError>(
                ParseError::UnknownTierFlag { family: Family::Uvint8, flag },
            ),
    {
        match flag {
            0 => Ok(Uvint8BitSize::Four),
            1 => Ok(Uvint8BitSize::Eight),
            _ => Err(ParseError::UnknownTierFlag { family: Family::Uvint8, flag }),
        }
    }

    /// Picks the narrowest tier that holds `value`.
    pub fn select(value: u8) -> (tier: Uvint8BitSize)
        ensures
            tier == Uvint8BitSize::smallest_for(value as int),
    {
        if value <= 15 {
            Uvint8BitSize::Four
        } else {
            Uvint8BitSize::Eight
        }
    }

    pub proof fn lemma_table(self)
        ensures
            self.flag() < pow2(1),
            Uvint8BitSize::of_flag(self.flag()) == self,
            self.max() + 1 == pow2(self.width()),
            1 <= self.width() <= 8,
    {
        lemma2_to64();
    }
}

/// An unsigned integer of up to eight bits with the tier that carries it.
#[derive(Clone, Copy, Debug, PartialEq, Eq, Structural)]
pub struct UVINT8 {
    pub bit_size: Uvint8BitSize,
    pub value: u8,
}

impl UVINT8 {
    pub fn new(bit_size: Uvint8BitSize, value: u8) -> (v: UVINT8)
        ensures
            v == (UVINT8 { bit_size, value }),
    {
        UVINT8 { bit_size, value }
    }

    /// As `new`, for a value that is already in the unit of the wire.
    pub fn new_scaled(bit_size: Uvint8BitSize, value: u8) -> (v: UVINT8)
        ensures
            v == (UVINT8 { bit_size, value }),
    {
        UVINT8 { bit_size, value }
    }

    pub fn bit_size(&self) -> (bits: usize)
        ensures
            bits == self.bit_size.width(),
    {
        self.bit_size.bit_size()
    }

    pub fn flag_bits_value(&self) -> (flag: u8)
        ensures
            flag == self.bit_size.flag(),
    {
        self.bit_size.flag_bits_value()
    }

    /// The values that the family can carry.
    pub open spec fn in_range(value: int) -> bool {
        0 <= value <= 255
    }

    /// The tier is the narrowest that holds the value.
    pub open spec fn canonical(self) -> bool {
        self.bit_size == Uvint8BitSize::smallest_for(self.value as int)
    }

    /// What `from_value` makes of a value in range.
    pub open spec fn of_value(value: int) -> UVINT8 {
        UVINT8 { bit_size: Uvint8BitSize::smallest_for(value), value: value as u8 }
    }

    /// Pairs a value with the narrowest tier that holds it.
    pub fn from_value(value: i64) -> (res: Result<UVINT8, CdisError>)
        ensures
            UVINT8::in_range(value as int) ==> res == Ok::<UVINT8, CdisError>(
                UVINT8::of_value(value as int),
            ),
            !UVINT8::in_range(value as int) ==> res == Err::<UVINT8, CdisError>(
                CdisError::ValueOutOfRange { family: Family::Uvint8, value },
            ),
    {
        if value < 0 || value > 255 {
            return Err(CdisError::ValueOutOfRange { family: Family::Uvint8, value });
        }
        let value = value as u8;
        Ok(UVINT8 { bit_size: Uvint8BitSize::select(value), value })
    }

    /// Encodes `value` at `cursor` in its narrowest tier. Nothing is
    /// written when the value is out of range or the buffer too short.
    pub fn encode(value: i64, buf: &mut BitBuffer, cursor: usize) -> (res: Result<usize, CdisError>)
        ensures
            match res {
                Ok(next) => {
                    &&& UVINT8::in_range(value as int)
                    &&& next == cursor + UVINT8::of_value(value as int).wire_bits().len()
                    &&& next <= MTU_BITS
                    &&& final(buf)@ == overwrite(
                        old(buf)@,
                        cursor as int,
                        UVINT8::of_value(value as int).wire_bits(),
                    )
                },
                Err(e) => {
                    &&& final(buf)@ == old(buf)@
                    &&& if UVINT8::in_range(value as int) {
                        &&& e == CdisError::CapacityExceeded
                        &&& cursor + UVINT8::of_value(value as int).wire_bits().len() > MTU_BITS
                    } else {
                        e == (CdisError::ValueOutOfRange { family: Family::Uvint8, value })
                    }
                },
            },
    {
        let v = match UVINT8::from_value(value) {
            Ok(v) => v,
            Err(e) => { return Err(e); },
        };
        proof {
            UVINT8::lemma_of_value(value as int);
        }
        let length = v.bit_length();
        if cursor > MTU_BITS || length > MTU_BITS - cursor {
            return Err(CdisError::CapacityExceeded);
        }
        Ok(v.serialize(buf, cursor))
    }

    /// `of_value` gives a value that can be written, in its narrowest tier.
    pub proof fn lemma_of_value(value: int)
        requires
            UVINT8::in_range(value),
        ensures
            UVINT8::of_value(value).wf(),
            UVINT8::of_value(value).canonical(),
            UVINT8::of_value(value).value == value,
    {
    }

    /// No tier that holds the value is narrower than the one chosen for it.
    pub proof fn lemma_smallest(value: int, tier: Uvint8BitSize)
        requires
            0 <= value <= tier.max(),
        ensures
            value <= Uvint8BitSize::smallest_for(value).max(),
            Uvint8BitSize::smallest_for(value).width() <= tier.width(),
    {
    }

    /// The value takes its flag and its tier's width on the wire.
    pub proof fn lemma_wire_length(self)
        requires
            self.wf(),
        ensures
            self.wire_bits().len() == 1 + self.bit_size.width(),
            self.wire_bits().len() <= 1 + 8,
    {
        lemma_bits_of_len(self.bit_size.flag(), 1);
        lemma_bits_of_len(self.value as nat, self.bit_size.width());
    }

    /// A written value reads back as itself, and the reader stops where the
    /// writer did.
    pub proof fn lemma_round_trip(self, bits: Seq<bool>, at: int)
        requires
            self.wf(),
            0 <= at,
            at + self.wire_bits().len() <= bits.len(),
            bits.subrange(at, at + self.wire_bits().len()) == self.wire_bits(),
        ensures
            uvint8_spec(bits, at) == Ok::<(UVINT8, int), ParseError>(
                (self, at + self.wire_bits().len()),
            ),
    {
        reveal(uvint8_spec);
        self.bit_size.lemma_table();
        lemma_bits_of_len(self.bit_size.flag(), 1);
        lemma_bits_of_len(self.value as nat, self.bit_size.width());
        lemma_unsigned_round_trip(
            bits,
            at,
            1,
            self.bit_size.flag(),
            self.bit_size.width(),
            self.value as nat,
        );
    }
}

/// A value with the narrowest tier of the family; a value that no tier
/// holds gets the widest.
impl From<u8> for UVINT8 {
    fn from(value: u8) -> (v: UVINT8) {
        UVINT8 { bit_size: Uvint8BitSize::select(value), value }
    }
}

impl vstd::std_specs::convert::FromSpecImpl<u8> for UVINT8 {
    open spec fn obeys_from_spec() -> bool {
        true
    }

    open spec fn from_spec(value: u8) -> UVINT8 {
        UVINT8 { bit_size: Uvint8BitSize::smallest_for(value as int), value }
    }
}

impl SerializeCdis for UVINT8 {
    /// The value fits the tier.
    open spec fn wf(&self) -> bool {
        self.value <= self.bit_size.max()
    }

    open spec fn wire_bits(&self) -> Seq<bool> {
        unsigned_wire(1, self.bit_size.flag(), self.bit_size.width(), self.value as nat)
    }

    fn is_valid(&self) -> (valid: bool) {
        self.value <= self.bit_size.max_value()
    }

    fn bit_length(&self) -> (length: usize)
        ensures
            length == 1 + self.bit_size.width(),
    {
        proof {
            lemma_bits_of_len(self.bit_size.flag(), 1);
            lemma_bits_of_len(self.value as nat, self.bit_size.width());
        }
        Uvint8BitSize::FLAG_BITS + self.bit_size()
    }

    fn serialize(&self, buf: &mut BitBuffer, cursor: usize) -> (next: usize) {
        proof {
            lemma_bits_of_len(self.bit_size.flag(), 1);
            lemma_bits_of_len(self.value as nat, self.bit_size.width());
        }
        let after_flag = write_value_with_length(
            buf,
            cursor,
            Uvint8BitSize::FLAG_BITS,
            self.flag_bits_value() as u32,
        );
        let next = write_value_with_length(buf, after_flag, self.bit_size(), self.value as u32);
        proof {
            lemma_overwrite_twice(
                old(buf)@,
                cursor as int,
                bits_of(self.bit_size.flag(), 1),
                bits_of(self.value as nat, self.bit_size.width()),
            );
        }
        next
    }
}

/// What parsing a UVINT8 at `at` gives: the value with the tier that its
/// flag names, and the position after it.
#[verifier::opaque]
pub open spec fn uvint8_spec(bits: Seq<bool>, at: int) -> Result<(UVINT8, int), ParseError> {
    match read_spec(bits, at, 1) {
        Err(e) => Err(e),
        Ok((flag, after_flag)) => {
            let bit_size = Uvint8BitSize::of_flag(flag);
            match read_spec(bits, after_flag, bit_size.width() as int) {
                Err(e) => Err(e),
                Ok((value, next)) => Ok((UVINT8 { bit_size, value: value as u8 }, next)),
            }
        },
    }
}

/// Parses a UVINT8: the flag, then the value in the width that the flag names.
pub fn uvint8<'a>(input: BitInput<'a>) -> (res: Result<(BitInput<'a>, UVINT8), ParseError>)
    requires
        input.0@.len() <= MTU_BYTES,
    ensures
        match uvint8_spec(input_bits(input), input.1 as int) {
            Ok((v, next)) => res == Ok::<(BitInput<'a>, UVINT8), ParseError>(
                ((input.0, next as usize), v),
            ) && v.wf() && input.1 <= next <= input_bits(input).len(),
            Err(e) => res == Err::<(BitInput<'a>, UVINT8), ParseError>(e),
        },
{
    let ghost bits = input_bits(input);
    proof {
        reveal(uvint8_spec);
    }
    let (after_flag, flag) = match read_value_with_length(input, Uvint8BitSize::FLAG_BITS) {
        Ok(r) => r,
        Err(e) => { return Err(e); },
    };
    proof {
        lemma_value_of_bound(bits.subrange(input.1 as int, input.1 + 1));
        lemma2_to64();
    }
    let bit_size = match Uvint8BitSize::from_flag(flag as u8) {
        Ok(t) => t,
        Err(e) => { return Err(e); },
    };
    let (rest, value) = match read_value_with_length(after_flag, bit_size.bit_size()) {
        Ok(r) => r,
        Err(e) => { return Err(e); },
    };
    proof {
        lemma_value_of_bound(
            bits.subrange(after_flag.1 as int, after_flag.1 + bit_size.width()),
        );
        bit_size.lemma_table();
    }
    Ok((rest, UVINT8::new(bit_size, value as u8)))
}

/// The tiers of UVINT16: a flag of 2 bits picks a width of 8, 11, 14 or 16 bits.
#[derive(Clone, Copy, Debug, PartialEq, Eq, Structural)]
pub enum Uvint16BitSize {
    Eight,
    Eleven,
    Fourteen,
    Sixteen,
}

impl Uvint16BitSize {
    /// Width of the flag field.
    pub const FLAG_SIZE: usize = 2;

    /// The tier's width in bits.
    pub open spec fn width(self) -> nat {
        match self {
            Uvint16BitSize::Eight => 8,
            Uvint16BitSize::Eleven => 11,
            Uvint16BitSize::Fourteen => 14,
            Uvint16BitSize::Sixteen => 16,
        }
    }

    /// The tier's flag code.
    pub open spec fn flag(self) -> nat {
        match self {
            Uvint16BitSize::Eight => 0,
            Uvint16BitSize::Eleven => 1,
            Uvint16BitSize::Fourteen => 2,
            Uvint16BitSize::Sixteen => 3,
        }
    }

    /// The greatest value that the tier holds.
    pub open spec fn max(self) -> nat {
        match self {
            Uvint16BitSize::Eight => 255,
            Uvint16BitSize::Eleven => 2047,
            Uvint16BitSize::Fourteen => 0x3fff,
            Uvint16BitSize::Sixteen => 0xffff,
        }
    }

    /// The tier that a flag code names; codes past the table name the last.
    pub open spec fn of_flag(flag: nat) -> Uvint16BitSize {
        if flag == 0 {
            Uvint16BitSize::Eight
        } else if flag == 1 {
            Uvint16BitSize::Eleven
        } else if flag == 2 {
            Uvint16BitSize::Fourteen
        } else {
            Uvint16BitSize::Sixteen
        }
    }

    /// The narrowest tier that holds `value`.
    pub open spec fn smallest_for(value: int) -> Uvint16BitSize {
        if value <= 255 {
            Uvint16BitSize::Eight
        } else if value <= 2047 {
            Uvint16BitSize::Eleven
        } else if value <= 0x3fff {
            Uvint16BitSize::Fourteen
        } else {
            Uvint16BitSize::Sixteen
        }
    }

    pub fn bit_size(&self) -> (bits: usize)
        ensures
            bits == self.width(),
    {
        match self {
            Uvint16BitSize::Eight => 8,
            Uvint16BitSize::Eleven => 11,
            Uvint16BitSize::Fourteen => 14,
            Uvint16BitSize::Sixteen => 16,
        }
    }

    pub fn flag_bits_value(&self) -> (flag: u8)
        ensures
            flag == self.flag(),
    {
        match self {
            Uvint16BitSize::Eight => 0,
            Uvint16BitSize::Eleven => 1,
            Uvint16BitSize::Fourteen => 2,
            Uvint16BitSize::Sixteen => 3,
        }
    }

    pub fn max_value(&self) -> (max: u16)
        ensures
            max == self.max(),
    {
        match self {
            Uvint16BitSize::Eight => 255,
            Uvint16BitSize::Eleven => 2047,
            Uvint16BitSize::Fourteen => 0x3fff,
            Uvint16BitSize::Sixteen => 0xffff,
        }
    }

    /// Looks a flag code up in the table.
    pub fn from_flag(flag: u8) -> (res: Result<Uvint16BitSize, ParseError>)
        ensures
            flag < 4 ==> res == Ok::<Uvint16BitSize, ParseError>(
                Uvint16BitSize::of_flag(flag as nat),
            ),
            flag >= 4 ==> res == Err::<Uvint16BitSize, ParseError>(
                ParseError::UnknownTierFlag { family: Family::Uvint16, flag },
            ),
    {
        match flag {
            0 => Ok(Uvint16BitSize::Eight),
            1 => Ok(Uvint16BitSize::Eleven),
            2 => Ok(Uvint16BitSize::Fourteen),
            3 => Ok(Uvint16BitSize::Sixteen),
            _ => Err(ParseError::UnknownTierFlag { family: Family::Uvint16, flag }),
        }
    }

    /// Picks the narrowest tier that holds `value`.
    pub fn select(value: u16) -> (tier: Uvint16BitSize)
        ensures
            tier == Uvint16BitSize::smallest_for(value as int),
    {
        if value <= 255 {
            Uvint16BitSize::Eight
        } else if value <= 2047 {
            Uvint16BitSize::Eleven
        } else if value <= 0x3fff {
            Uvint16BitSize::Fourteen
        } else {
            Uvint16BitSize::Sixteen
        }
    }

    pub proof fn lemma_table(self)
        ensures
            self.flag() < pow2(2),
            Uvint16BitSize::of_flag(self.flag()) == self,
            self.max() + 1 == pow2(self.width()),
            1 <= self.width() <= 16,
    {
        lemma2_to64();
    }
}

/// An unsigned integer of up to sixteen bits with the tier that carries it.
#[derive(Clone, Copy, Debug, PartialEq, Eq, Structural)]
pub struct UVINT16 {
    pub bit_size: Uvint16BitSize,
    pub value: u16,
}

impl UVINT16 {
    pub fn new(bit_size: Uvint16BitSize, value: u16) -> (v: UVINT16)
        ensures
            v == (UVINT16 { bit_size, value }),
    {
        UVINT16 { bit_size, value }
    }

    pub fn bit_size(&self) -> (bits: usize)
        ensures
            bits == self.bit_size.width(),
    {
        self.bit_size.bit_size()
    }

    pub fn flag_bits_value(&self) -> (flag: u8)
        ensures
            flag == self.bit_size.flag(),
    {
        self.bit_size.flag_bits_value()
    }

    /// The values that the family can carry.
    pub open spec fn in_range(value: int) -> bool {
        0 <= value <= 0xffff
    }

    /// The tier is the narrowest that holds the value.
    pub open spec fn canonical(self) -> bool {
        self.bit_size == Uvint16BitSize::smallest_for(self.value as int)
    }

    /// What `from_value` makes of a value in range.
    pub open spec fn of_value(value: int) -> UVINT16 {
        UVINT16 { bit_size: Uvint16BitSize::smallest_for(value), value: value as u16 }
    }

    /// Pairs a value with the narrowest tier that holds it.
    pub fn from_value(value: i64) -> (res: Result<UVINT16, CdisError>)
        ensures
            UVINT16::in_range(value as int) ==> res == Ok::<UVINT16, CdisError>(
                UVINT16::of_value(value as int),
            ),
            !UVINT16::in_range(value as int) ==> res == Err::<UVINT16, CdisError>(
                CdisError::ValueOutOfRange { family: Family::Uvint16, value },
            ),
    {
        if value < 0 || value > 0xffff {
            return Err(CdisError::ValueOutOfRange { family: Family::Uvint16, value });
        }
        let value = value as u16;
        Ok(UVINT16 { bit_size: Uvint16BitSize::select(value), value })
    }

    /// Encodes `value` at `cursor` in its narrowest tier. Nothing is
    /// written when the value is out of range or the buffer too short.
    pub fn encode(value: i64, buf: &mut BitBuffer, cursor: usize) -> (res: Result<usize, CdisError>)
        ensures
            match res {
                Ok(next) => {
                    &&& UVINT16::in_range(value as int)
                    &&& next == cursor + UVINT16::of_value(value as int).wire_bits().len()
                    &&& next <= MTU_BITS
                    &&& final(buf)@ == overwrite(
                        old(buf)@,
                        cursor as int,
                        UVINT16::of_value(value as int).wire_bits(),
                    )
                },
                Err(e) => {
                    &&& final(buf)@ == old(buf)@
                    &&& if UVINT16::in_range(value as int) {
                        &&& e == CdisError::CapacityExceeded
                        &&& cursor + UVINT16::of_value(value as int).wire_bits().len() > MTU_BITS
                    } else {
                        e == (CdisError::ValueOutOfRange { family: Family::Uvint16, value })
                    }
                },
            },
    {
        let v = match UVINT16::from_value(value) {
            Ok(v) => v,
            Err(e) => { return Err(e); },
        };
        proof {
            UVINT16::lemma_of_value(value as int);
        }
        let length = v.bit_length();
        if cursor > MTU_BITS || length > MTU_BITS - cursor {
            return Err(CdisError::CapacityExceeded);
        }
        Ok(v.serialize(buf, cursor))
    }

    /// `of_value` gives a value that can be written, in its narrowest tier.
    pub proof fn lemma_of_value(value: int)
        requires
            UVINT16::in_range(value),
        ensures
            UVINT16::of_value(value).wf(),
            UVINT16::of_value(value).canonical(),
            UVINT16::of_value(value).value == value,
    {
    }

    /// No tier that holds the value is narrower than the one chosen for it.
    pub proof fn lemma_smallest(value: int, tier: Uvint16BitSize)
        requires
            0 <= value <= tier.max(),
        ensures
            value <= Uvint16BitSize::smallest_for(value).max(),
            Uvint16BitSize::smallest_for(value).width() <= tier.width(),
    {
    }

    /// The value takes its flag and its tier's width on the wire.
    pub proof fn lemma_wire_length(self)
        requires
            self.wf(),
        ensures
            self.wire_bits().len() == 2 + self.bit_size.width(),
            self.wire_bits().len() <= 2 + 16,
    {
        lemma_bits_of_len(self.bit_size.flag(), 2);
        lemma_bits_of_len(self.value as nat, self.bit_size.width());
    }

    /// A written value reads back as itself, and the reader stops where the
    /// writer did.
    pub proof fn lemma_round_trip(self, bits: Seq<bool>, at: int)
        requires
            self.wf(),
            0 <= at,
            at + self.wire_bits().len() <= bits.len(),
            bits.subrange(at, at + self.wire_bits().len()) == self.wire_bits(),
        ensures
            uvint16_spec(bits, at) == Ok::<(UVINT16, int), ParseError>(
                (self, at + self.wire_bits().len()),
            ),
    {
        reveal(uvint16_spec);
        self.bit_size.lemma_table();
        lemma_bits_of_len(self.bit_size.flag(), 2);
        lemma_bits_of_len(self.value as nat, self.bit_size.width());
        lemma_unsigned_round_trip(
            bits,
            at,
            2,
            self.bit_size.flag(),
            self.bit_size.width(),
            self.value as nat,
        );
    }
}

/// A value with the narrowest tier of the family; a value that no tier
/// holds gets the widest.
impl From<u16> for UVINT16 {
    fn from(value: u16) -> (v: UVINT16) {
        UVINT16 { bit_size: Uvint16BitSize::select(value), value }
    }
}

impl vstd::std_specs::convert::FromSpecImpl<u16> for UVINT16 {
    open spec fn obeys_from_spec() -> bool {
        true
    }

    open spec fn from_spec(value: u16) -> UVINT16 {
        UVINT16 { bit_size: Uvint16BitSize::smallest_for(value as int), value }
    }
}

impl SerializeCdis for UVINT16 {
    /// The value fits the tier.
    open spec fn wf(&self) -> bool {
        self.value <= self.bit_size.max()
    }

    open spec fn wire_bits(&self) -> Seq<bool> {
        unsigned_wire(2, self.bit_size.flag(), self.bit_size.width(), self.value as nat)
    }

    fn is_valid(&self) -> (valid: bool) {
        self.value <= self.bit_size.max_value()
    }

    fn bit_length(&self) -> (length: usize)
        ensures
            length == 2 + self.bit_size.width(),
    {
        proof {
            lemma_bits_of_len(self.bit_size.flag(), 2);
            lemma_bits_of_len(self.value as nat, self.bit_size.width());
        }
        Uvint16BitSize::FLAG_SIZE + self.bit_size()
    }

    fn serialize(&self, buf: &mut BitBuffer, cursor: usize) -> (next: usize) {
        proof {
            lemma_bits_of_len(self.bit_size.flag(), 2);
            lemma_bits_of_len(self.value as nat, self.bit_size.width());
        }
        let after_flag = write_value_with_length(
            buf,
            cursor,
            Uvint16BitSize::FLAG_SIZE,
            self.flag_bits_value() as u32,
        );
        let next = write_value_with_length(buf, after_flag, self.bit_size(), self.value as u32);
        proof {
            lemma_overwrite_twice(
                old(buf)@,
                cursor as int,
                bits_of(self.bit_size.flag(), 2),
                bits_of(self.value as nat, self.bit_size.width()),
            );
        }
        next
    }
}

/// What parsing a UVINT16 at `at` gives: the value with the tier that its
/// flag names, and the position after it.
#[verifier::opaque]
pub open spec fn uvint16_spec(bits: Seq<bool>, at: int) -> Result<(UVINT16, int), ParseError> {
    match read_spec(bits, at, 2) {
        Err(e) => Err(e),
        Ok((flag, after_flag)) => {
            let bit_size = Uvint16BitSize::of_flag(flag);
            match read_spec(bits, after_flag, bit_size.width() as int) {
                Err(e) => Err(e),
                Ok((value, next)) => Ok((UVINT16 { bit_size, value: value as u16 }, next)),
            }
        },
    }
}

/// Parses a UVINT16: the flag, then the value in the width that the flag names.
pub fn uvint16<'a>(input: BitInput<'a>) -> (res: Result<(BitInput<'a>, UVINT16), ParseError>)
    requires
        input.0@.len() <= MTU_BYTES,
    ensures
        match uvint16_spec(input_bits(input), input.1 as int) {
            Ok((v, next)) => res == Ok::<(BitInput<'a>, UVINT16), ParseError>(
                ((input.0, next as usize), v),
            ) && v.wf() && input.1 <= next <= input_bits(input).len(),
            Err(e) => res == Err::<(BitInput<'a>, UVINT16), ParseError>(e),
        },
{
    let ghost bits = input_bits(input);
    proof {
        reveal(uvint16_spec);
    }
    let (after_flag, flag) = match read_value_with_length(input, Uvint16BitSize::FLAG_SIZE) {
        Ok(r) => r,
        Err(e) => { return Err(e); },
    };
    proof {
        lemma_value_of_bound(bits.subrange(input.1 as int, input.1 + 2));
        lemma2_to64();
    }
    let bit_size = match Uvint16BitSize::from_flag(flag as u8) {
        Ok(t) => t,
        Err(e) => { return Err(e); },
    };
    let (rest, value) = match read_value_with_length(after_flag, bit_size.bit_size()) {
        Ok(r) => r,
        Err(e) => { return Err(e); },
    };
    proof {
        lemma_value_of_bound(
            bits.subrange(after_flag.1 as int, after_flag.1 + bit_size.width()),
        );
        bit_size.lemma_table();
    }
    Ok((rest, UVINT16::new(bit_size, value as u16)))
}

/// The tiers of UVINT32: a flag of 2 bits picks a width of 8, 15, 18 or 32 bits.
#[derive(Clone, Copy, Debug, PartialEq, Eq, Structural)]
pub enum Uvint32BitSize {
    Eight,
    Fifteen,
    Eighteen,
    ThirtyTwo,
}

impl Uvint32BitSize {
    /// Width of the flag field.
    pub const FLAG_SIZE: usize = 2;

    /// The tier's width in bits.
    pub open spec fn width(self) -> nat {
        match self {
            Uvint32BitSize::Eight => 8,
            Uvint32BitSize::Fifteen => 15,
            Uvint32BitSize::Eighteen => 18,
            Uvint32BitSize::ThirtyTwo => 32,
        }
    }

    /// The tier's flag code.
    pub open spec fn flag(self) -> nat {
        match self {
            Uvint32BitSize::Eight => 0,
            Uvint32BitSize::Fifteen => 1,
            Uvint32BitSize::Eighteen => 2,
            Uvint32BitSize::ThirtyTwo => 3,
        }
    }

    /// The greatest value that the tier holds.
    pub open spec fn max(self) -> nat {
        match self {
            Uvint32BitSize::Eight => 255,
            Uvint32BitSize::Fifteen => 0x7fff,
            Uvint32BitSize::Eighteen => 0x3ffff,
            Uvint32BitSize::ThirtyTwo => 0xffffffff,
        }
    }

    /// The tier that a flag code names; codes past the table name the last.
    pub open spec fn of_flag(flag: nat) -> Uvint32BitSize {
        if flag == 0 {
            Uvint32BitSize::Eight
        } else if flag == 1 {
            Uvint32BitSize::Fifteen
        } else if flag == 2 {
            Uvint32BitSize::Eighteen
        } else {
            Uvint32BitSize::ThirtyTwo
        }
    }

    /// The narrowest tier that holds `value`.
    pub open spec fn smallest_for(value: int) -> Uvint32BitSize {
        if value <= 255 {
            Uvint32BitSize::Eight
        } else if value <= 0x7fff {
            Uvint32BitSize::Fifteen
        } else if value <= 0x3ffff {
            Uvint32BitSize::Eighteen
        } else {
            Uvint32BitSize::ThirtyTwo
        }
    }

    pub fn bit_size(&self) -> (bits: usize)
        ensures
            bits == self.width(),
    {
        match self {
            Uvint32BitSize::Eight => 8,
            Uvint32BitSize::Fifteen => 15,
            Uvint32BitSize::Eighteen => 18,
            Uvint32BitSize::ThirtyTwo => 32,
        }
    }

    pub fn flag_bits_value(&self) -> (flag: u8)
        ensures
            flag == self.flag(),
    {
        match self {
            Uvint32BitSize::Eight => 0,
            Uvint32BitSize::Fifteen => 1,
            Uvint32BitSize::Eighteen => 2,
            Uvint32BitSize::ThirtyTwo => 3,
        }
    }

    pub fn max_value(&self) -> (max: u32)
        ensures
            max == self.max(),
    {
        match self {
            Uvint32BitSize::Eight => 255,
            Uvint32BitSize::Fifteen => 0x7fff,
            Uvint32BitSize::Eighteen => 0x3ffff,
            Uvint32BitSize::ThirtyTwo => 0xffffffff,
        }
    }

    /// Looks a flag code up in the table.
    pub fn from_flag(flag: u8) -> (res: Result<Uvint32BitSize, ParseError>)
        ensures
            flag < 4 ==> res == Ok::<Uvint32BitSize, ParseError>(
                Uvint32BitSize::of_flag(flag as nat),
            ),
            flag >= 4 ==> res == Err::<Uvint32BitSize, ParseError>(
                ParseError::UnknownTierFlag { family: Family::Uvint32, flag },
            ),
    {
        match flag {
            0 => Ok(Uvint32BitSize::Eight),
            1 => Ok(Uvint32BitSize::Fifteen),
            2 => Ok(Uvint32BitSize::Eighteen),
            3 => Ok(Uvint32BitSize::ThirtyTwo),
            _ => Err(ParseError::UnknownTierFlag { family: Family::Uvint32, flag }),
        }
    }

    /// Picks the narrowest tier that holds `value`.
    pub fn select(value: u32) -> (tier: Uvint32BitSize)
        ensures
            tier == Uvint32BitSize::smallest_for(value as int),
    {
        if value <= 255 {
            Uvint32BitSize::Eight
        } else if value <= 0x7fff {
            Uvint32BitSize::Fifteen
        } else if value <= 0x3ffff {
            Uvint32BitSize::Eighteen
        } else {
            Uvint32BitSize::ThirtyTwo
        }
    }

    pub proof fn lemma_table(self)
        ensures
            self.flag() < pow2(2),
            Uvint32BitSize::of_flag(self.flag()) == self,
            self.max() + 1 == pow2(self.width()),
            1 <= self.width() <= 32,
    {
        lemma2_to64();
    }
}

/// An unsigned integer of up to thirty-two bits with the tier that carries it.
#[derive(Clone, Copy, Debug, PartialEq, Eq, Structural)]
pub struct UVINT32 {
    pub bit_size: Uvint32BitSize,
    pub value: u32,
}

impl UVINT32 {
    pub fn new(bit_size: Uvint32BitSize, value: u32) -> (v: UVINT32)
        ensures
            v == (UVINT32 { bit_size, value }),
    {
        UVINT32 { bit_size, value }
    }

    pub fn bit_size(&self) -> (bits: usize)
        ensures
            bits == self.bit_size.width(),
    {
        self.bit_size.bit_size()
    }

    pub fn flag_bits_value(&self) -> (flag: u8)
        ensures
            flag == self.bit_size.flag(),
    {
        self.bit_size.flag_bits_value()
    }

    /// The values that the family can carry.
    pub open spec fn in_range(value: int) -> bool {
        0 <= value <= 0xffffffff
    }

    /// The tier is the narrowest that holds the value.
    pub open spec fn canonical(self) -> bool {
        self.bit_size == Uvint32BitSize::smallest_for(self.value as int)
    }

    /// What `from_value` makes of a value in range.
    pub open spec fn of_value(value: int) -> UVINT32 {
        UVINT32 { bit_size: Uvint32BitSize::smallest_for(value), value: value as u32 }
    }

    /// Pairs a value with the narrowest tier that holds it.
    pub fn from_value(value: i64) -> (res: Result<UVINT32, CdisError>)
        ensures
            UVINT32::in_range(value as int) ==> res == Ok::<UVINT32, CdisError>(
                UVINT32::of_value(value as int),
            ),
            !UVINT32::in_range(value as int) ==> res == Err::<UVINT32, CdisError>(
                CdisError::ValueOutOfRange { family: Family::Uvint32, value },
            ),
    {
        if value < 0 || value > 0xffffffff {
            return Err(CdisError::ValueOutOfRange { family: Family::Uvint32, value });
        }
        let value = value as u32;
        Ok(UVINT32 { bit_size: Uvint32BitSize::select(value), value })
    }

    /// Encodes `value` at `cursor` in its narrowest tier. Nothing is
    /// written when the value is out of range or the buffer too short.
    pub fn encode(value: i64, buf: &mut BitBuffer, cursor: usize) -> (res: Result<usize, CdisError>)
        ensures
            match res {
                Ok(next) => {
                    &&& UVINT32::in_range(value as int)
                    &&& next == cursor + UVINT32::of_value(value as int).wire_bits().len()
                    &&& next <= MTU_BITS
                    &&& final(buf)@ == overwrite(
                        old(buf)@,
                        cursor as int,
                        UVINT32::of_value(value as int).wire_bits(),
                    )
                },
                Err(e) => {
                    &&& final(buf)@ == old(buf)@
                    &&& if UVINT32::in_range(value as int) {
                        &&& e == CdisError::CapacityExceeded
                        &&& cursor + UVINT32::of_value(value as int).wire_bits().len() > MTU_BITS
                    } else {
                        e == (CdisError::ValueOutOfRange { family: Family::Uvint32, value })
                    }
                },
            },
    {
        let v = match UVINT32::from_value(value) {
            Ok(v) => v,
            Err(e) => { return Err(e); },
        };
        proof {
            UVINT32::lemma_of_value(value as int);
        }
        let length = v.bit_length();
        if cursor > MTU_BITS || length > MTU_BITS - cursor {
            return Err(CdisError::CapacityExceeded);
        }
        Ok(v.serialize(buf, cursor))
    }

    /// `of_value` gives a value that can be written, in its narrowest tier.
    pub proof fn lemma_of_value(value: int)
        requires
            UVINT32::in_range(value),
        ensures
            UVINT32::of_value(value).wf(),
            UVINT32::of_value(value).canonical(),
            UVINT32::of_value(value).value == value,
    {
    }

    /// No tier that holds the value is narrower than the one chosen for it.
    pub proof fn lemma_smallest(value: int, tier: Uvint32BitSize)
        requires
            0 <= value <= tier.max(),
        ensures
            value <= Uvint32BitSize::smallest_for(value).max(),
            Uvint32BitSize::smallest_for(value).width() <= tier.width(),
    {
    }

    /// The value takes its flag and its tier's width on the wire.
    pub proof fn lemma_wire_length(self)
        requires
            self.wf(),
        ensures
            self.wire_bits().len() == 2 + self.bit_size.width(),
            self.wire_bits().len() <= 2 + 32,
    {
        lemma_bits_of_len(self.bit_size.flag(), 2);
        lemma_bits_of_len(self.value as nat, self.bit_size.width());
    }

    /// A written value reads back as itself, and the reader stops where the
    /// writer did.
    pub proof fn lemma_round_trip(self, bits: Seq<bool>, at: int)
        requires
            self.wf(),
            0 <= at,
            at + self.wire_bits().len() <= bits.len(),
            bits.subrange(at, at + self.wire_bits().len()) == self.wire_bits(),
        ensures
            uvint32_spec(bits, at) == Ok::<(UVINT32, int), ParseError>(
                (self, at + self.wire_bits().len()),
            ),
    {
        reveal(uvint32_spec);
        self.bit_size.lemma_table();
        lemma_bits_of_len(self.bit_size.flag(), 2);
        lemma_bits_of_len(self.value as nat, self.bit_size.width());
        lemma_unsigned_round_trip(
            bits,
            at,
            2,
            self.bit_size.flag(),
            self.bit_size.width(),
            self.value as nat,
        );
    }
}

/// A value with the narrowest tier of the family; a value that no tier
/// holds gets the widest.
impl From<u32> for UVINT32 {
    fn from(value: u32) -> (v: UVINT32) {
        UVINT32 { bit_size: Uvint32BitSize::select(value), value }
    }
}

impl vstd::std_specs::convert::FromSpecImpl<u32> for UVINT32 {
    open spec fn obeys_from_spec() -> bool {
        true
    }

    open spec fn from_spec(value: u32) -> UVINT32 {
        UVINT32 { bit_size: Uvint32BitSize::smallest_for(value as int), value }
    }
}

impl SerializeCdis for UVINT32 {
    /// The value fits the tier.
    open spec fn wf(&self) -> bool {
        self.value <= self.bit_size.max()
    }

    open spec fn wire_bits(&self) -> Seq<bool> {
        unsigned_wire(2, self.bit_size.flag(), self.bit_size.width(), self.value as nat)
    }

    fn is_valid(&self) -> (valid: bool) {
        self.value <= self.bit_size.max_value()
    }

    fn bit_length(&self) -> (length: usize)
        ensures
            length == 2 + self.bit_size.width(),
    {
        proof {
            lemma_bits_of_len(self.bit_size.flag(), 2);
            lemma_bits_of_len(self.value as nat, self.bit_size.width());
        }
        Uvint32BitSize::FLAG_SIZE + self.bit_size()
    }

    fn serialize(&self, buf: &mut BitBuffer, cursor: usize) -> (next: usize) {
        proof {
            lemma_bits_of_len(self.bit_size.flag(), 2);
            lemma_bits_of_len(self.value as nat, self.bit_size.width());
        }
        let after_flag = write_value_with_length(
            buf,
            cursor,
            Uvint32BitSize::FLAG_SIZE,
            self.flag_bits_value() as u32,
        );
        let next = write_value_with_length(buf, after_flag, self.bit_size(), self.value as u32);
        proof {
            lemma_overwrite_twice(
                old(buf)@,
                cursor as int,
                bits_of(self.bit_size.flag(), 2),
                bits_of(self.value as nat, self.bit_size.width()),
            );
        }
        next
    }
}

/// What parsing a UVINT32 at `at` gives: the value with the tier that its
/// flag names, and the position after it.
#[verifier::opaque]
pub open spec fn uvint32_spec(bits: Seq<bool>, at: int) -> Result<(UVINT32, int), ParseError> {
    match read_spec(bits, at, 2) {
        Err(e) => Err(e),
        Ok((flag, after_flag)) => {
            let bit_size = Uvint32BitSize::of_flag(flag);
            match read_spec(bits, after_flag, bit_size.width() as int) {
                Err(e) => Err(e),
                Ok((value, next)) => Ok((UVINT32 { bit_size, value: value as u32 }, next)),
            }
        },
    }
}

/// Parses a UVINT32: the flag, then the value in the width that the flag names.
pub fn uvint32<'a>(input: BitInput<'a>) -> (res: Result<(BitInput<'a>, UVINT32), ParseError>)
    requires
        input.0@.len() <= MTU_BYTES,
    ensures
        match uvint32_spec(input_bits(input), input.1 as int) {
            Ok((v, next)) => res == Ok::<(BitInput<'a>, UVINT32), ParseError>(
                ((input.0, next as usize), v),
            ) && v.wf() && input.1 <= next <= input_bits(input).len(),
            Err(e) => res == Err::<(BitInput<'a>, UVINT32), ParseError>(e),
        },
{
    let ghost bits = input_bits(input);
    proof {
        reveal(uvint32_spec);
    }
    let (after_flag, flag) = match read_value_with_length(input, Uvint32BitSize::FLAG_SIZE) {
        Ok(r) => r,
        Err(e) => { return Err(e); },
    };
    proof {
        lemma_value_of_bound(bits.subrange(input.1 as int, input.1 + 2));
        lemma2_to64();
    }
    let bit_size = match Uvint32BitSize::from_flag(flag as u8) {
        Ok(t) => t,
        Err(e) => { return Err(e); },
    };
    let (rest, value) = match read_value_with_length(after_flag, bit_size.bit_size()) {
        Ok(r) => r,
        Err(e) => { return Err(e); },
    };
    proof {
        lemma_value_of_bound(
            bits.subrange(after_flag.1 as int, after_flag.1 + bit_size.width()),
        );
        bit_size.lemma_table();
    }
    Ok((rest, UVINT32::new(bit_size, value as u32)))
}

} // verus!
