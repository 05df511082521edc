//! Fields that are on the wire only when asked for: a field is present when
//! the body is a full update, or when its bit is set in the presence mask.

use vstd::prelude::*;
use crate::constants::MTU_BITS;
use crate::bits::{overwrite, lemma_overwrite_nothing};
use crate::buffer::{BitBuffer, BitInput};
use crate::codec::SerializeCdis;
use crate::error::ParseError;

verus! {

/// An integer read as a set of presence bits.
pub trait PresenceBits: Copy {
    /// The bits, widened.
    spec fn bits(self) -> u64;

    fn to_bits(self) -> (bits: u64)
        ensures
            bits == self.bits(),
    ;
}

impl PresenceBits for u8 {
    open spec fn bits(self) -> u64 {
        self as u64
    }

    fn to_bits(self) -> (bits: u64) {
        self as u64
    }
}

impl PresenceBits for u16 {
    open spec fn bits(self) -> u64 {
        self as u64
    }

    fn to_bits(self) -> (bits: u64) {
        self as u64
    }
}

impl PresenceBits for u32 {
    open spec fn bits(self) -> u64 {
        self as u64
    }

    fn to_bits(self) -> (bits: u64) {
        self as u64
    }
}

impl PresenceBits for u64 {
    open spec fn bits(self) -> u64 {
        self
    }

    fn to_bits(self) -> (bits: u64) {
        self
    }
}

/// The mask picks at least one bit that is set in `fields_present`.
pub open spec fn mask_matches<T: PresenceBits>(fields_present: T, mask: T) -> bool {
    fields_present.bits() & mask.bits() != 0
}

/// The condition under which a field is on the wire.
pub open spec fn is_present<T: PresenceBits>(
    full_update: bool,
    fields_present: T,
    mask: T,
) -> bool {
    full_update || mask_matches(fields_present, mask)
}

/// Tells whether `mask` picks a bit that is set in `fields_present`.
pub fn field_present<T: PresenceBits>(fields_present: T, mask: T) -> (present: bool)
    ensures
        present == mask_matches(fields_present, mask),
{
    (fields_present.to_bits() & mask.to_bits()) != 0
}

/// What the conditional parser may return on `input`: nothing read and no
/// value when the field is absent; when it is present, what `f` may return
/// on that input, the value in `Some`.
pub open spec fn conditional_outcome<'a, O, F>(
    present: bool,
    f: F,
    input: BitInput<'a>,
    res: Result<(BitInput<'a>, Option<O>), ParseError>,
) -> bool where F: Fn(BitInput<'a>) -> Result<(BitInput<'a>, O), ParseError> {
    if present {
        match res {
            Ok((rest, Some(value))) => f.ensures(
                (input,),
                Ok::<(BitInput<'a>, O), ParseError>((rest, value)),
            ),
            Ok((_, None)) => false,
            Err(e) => f.ensures((input,), Err::<(BitInput<'a>, O), ParseError>(e)),
        }
    } else {
        res == Ok::<(BitInput<'a>, Option<O>), ParseError>((input, None))
    }
}

/// Makes of the parser `f` one that applies it when the field is present,
/// and reads nothing when it is not. What `f` returns comes back unchanged,
/// its value wrapped in `Some`.
pub fn parse_field_when_present<'a, O, T, F>(
    full_update: bool,
    fields_present: T,
    mask: T,
    f: F,
) -> (parser: impl Fn(BitInput<'a>) -> Result<(BitInput<'a>, Option<O>), ParseError>)
    where
        T: PresenceBits,
        F: Fn(BitInput<'a>) -> Result<(BitInput<'a>, O), ParseError>,
    ensures
        forall|input: BitInput<'a>|
            (is_present(full_update, fields_present, mask) ==> f.requires((input,)))
                ==> #[trigger] parser.requires((input,)),
        forall|input: BitInput<'a>, res: Result<(BitInput<'a>, Option<O>), ParseError>|
            #[trigger] parser.ensures((input,), res) ==> conditional_outcome(
                is_present(full_update, fields_present, mask),
                f,
                input,
                res,
            ),
{
    move |input: BitInput<'a>| -> (res: Result<(BitInput<'a>, Option<O>), ParseError>)
        requires
            is_present(full_update, fields_present, mask) ==> f.requires((input,)),
        ensures
            conditional_outcome(is_present(full_update, fields_present, mask), f, input, res),
    {
        if full_update || field_present(fields_present, mask) {
            let result = f(input);
            match result {
                Ok((input, result)) => Ok((input, Some(result))),
                Err(err) => Err(err),
            }
        } else {
            Ok((input, None))
        }
    }
}

/// What a conditional field makes of its own parser's result: the value in
/// `Some` when the field is present, and nothing read when it is not.
pub open spec fn when_present<T>(
    present: bool,
    parsed: Result<(T, int), ParseError>,
    at: int,
) -> Result<(Option<T>, int), ParseError> {
    if present {
        match parsed {
            Ok((value, next)) => Ok((Some(value), next)),
            Err(e) => Err(e),
        }
    } else {
        Ok((None, at))
    }
}

/// The bits of a field that may be absent: none when it is.
pub open spec fn optional_bits<T: SerializeCdis>(field: Option<T>) -> Seq<bool> {
    match field {
        Some(value) => value.wire_bits(),
        None => Seq::empty(),
    }
}

/// A field that may be absent can be written: it is absent or well formed.
pub open spec fn optional_wf<T: SerializeCdis>(field: Option<T>) -> bool {
    match field {
        Some(value) => value.wf(),
        None => true,
    }
}

/// Whether a field that may be absent can be written.
pub fn optional_is_valid<T: SerializeCdis>(field: &Option<T>) -> (valid: bool)
    ensures
        valid == optional_wf(*field),
{
    match field {
        Some(value) => value.is_valid(),
        None => true,
    }
}

/// How many bits a field that may be absent takes.
pub fn optional_length<T: SerializeCdis>(field: &Option<T>) -> (length: usize)
    requires
        optional_wf(*field),
    ensures
        length == optional_bits(*field).len(),
{
    match field {
        Some(value) => value.bit_length(),
        None => 0,
    }
}

/// Writes the field when it is there, and nothing when it is not.
pub fn serialize_field_when_present<T: SerializeCdis>(
    field: &Option<T>,
    buf: &mut BitBuffer,
    cursor: usize,
) -> (next: usize)
    requires
        optional_wf(*field),
        cursor + optional_bits(*field).len() <= MTU_BITS,
    ensures
        next == cursor + optional_bits(*field).len(),
        final(buf)@ == overwrite(old(buf)@, cursor as int, optional_bits(*field)),
{
    match field {
        Some(value) => value.serialize(buf, cursor),
        None => {
            proof {
                lemma_overwrite_nothing(buf@, cursor as int);
            }
            cursor
        },
    }
}

} // verus!
