//! The records that an entity state body is made of.

use vstd::prelude::*;
use vstd::arithmetic::power2::lemma2_to64;
use crate::constants::MTU_BYTES;
use crate::bits::{bits_of, lemma_bits_of_len, lemma_overwrite_twice, lemma_split_written,
    lemma_value_of_bound};
use crate::buffer::{BitBuffer, BitInput, input_bits, read_spec, read_value_with_length,
    write_value_with_length};
use crate::codec::SerializeCdis;
use crate::error::ParseError;
use crate::svint::{svint12, svint12_spec, svint14, svint14_spec, SVINT12, SVINT14};
use crate::uvint::{uvint16, uvint16_spec, UVINT16};
use crate::varint::{read_signed_spec, read_signed_value, signed_bits, write_signed_value,
    lemma_read_signed_written, lemma_read_written, lemma_signed_bits};

verus! {

/// Who an entity is: its site, its application, and its number there.
#[derive(Clone, Copy, Debug, PartialEq, Eq, Structural)]
pub struct EntityId {
    pub site: UVINT16,
    pub application: UVINT16,
    pub entity: UVINT16,
}

impl EntityId {
    pub fn new(site: UVINT16, application: UVINT16, entity: UVINT16) -> (record: EntityId)
        ensures
            record == (EntityId { site, application, entity }),
    {
        EntityId { site, application, entity }
    }

    /// How long the record is on the wire.
    pub proof fn lemma_wire_length(self)
        requires
            self.wf(),
        ensures
            self.wire_bits().len() <= 54,
    {
        self.site.lemma_wire_length();
        self.application.lemma_wire_length();
        self.entity.lemma_wire_length();
    }

    /// A written record reads back as itself, and the reader stops where
    /// the writer did.
    pub proof fn lemma_round_trip(self, bits: Seq<bool>, at: int)
        requires
            self.wf(),
            0 <= at,
            at + self.wire_bits().len() <= bits.len(),
            bits.subrange(at, at + self.wire_bits().len()) == self.wire_bits(),
        ensures
            entity_identification_spec(bits, at) == Ok::<(EntityId, int), ParseError>(
                (self, at + self.wire_bits().len()),
            ),
    {
        reveal(entity_identification_spec);
        self.site.lemma_wire_length();
        self.application.lemma_wire_length();
        self.entity.lemma_wire_length();
        let p_site = self.site.wire_bits();
        let p_application = self.application.wire_bits();
        let p_entity = self.entity.wire_bits();
        let w_site = p_site;
        let w_application = w_site + p_application;
        lemma_split_written(bits, at, w_application, p_entity);
        lemma_split_written(bits, at, w_site, p_application);
        self.site.lemma_round_trip(bits, at);
        self.application.lemma_round_trip(bits, at + w_site.len());
        self.entity.lemma_round_trip(bits, at + w_application.len());
    }
}

impl SerializeCdis for EntityId {
    open spec fn wf(&self) -> bool {
        &&& self.site.wf()
        &&& self.application.wf()
        &&& self.entity.wf()
    }

    open spec fn wire_bits(&self) -> Seq<bool> {
        self.site.wire_bits() + self.application.wire_bits() + self.entity.wire_bits()
    }

    fn is_valid(&self) -> (valid: bool) {
        self.site.is_valid() && self.application.is_valid() && self.entity.is_valid()
    }

    fn bit_length(&self) -> (length: usize)
        ensures
            length <= 54,
    {
        proof {
            self.lemma_wire_length();
        }
        self.site.bit_length() + self.application.bit_length() + self.entity.bit_length()
    }

    fn serialize(&self, buf: &mut BitBuffer, cursor: usize) -> (next: usize) {
        proof {
            self.site.lemma_wire_length();
            self.application.lemma_wire_length();
            self.entity.lemma_wire_length();
        }
        let ghost start = cursor;
        let cursor = self.site.serialize(buf, cursor);
        let ghost written = self.site.wire_bits();
        let cursor = self.application.serialize(buf, cursor);
        proof {
            lemma_overwrite_twice(old(buf)@, start as int, written, self.application.wire_bits());
        }
        let ghost written = written + self.application.wire_bits();
        let cursor = self.entity.serialize(buf, cursor);
        proof {
            lemma_overwrite_twice(old(buf)@, start as int, written, self.entity.wire_bits());
        }
        cursor
    }
}

/// What parsing an entity identification at `at` gives.
#[verifier::opaque]
pub open spec fn entity_identification_spec(bits: Seq<bool>, at: int) -> Result<
    (EntityId, int),
    ParseError,
> {
    match uvint16_spec(bits, at) {
        Err(e) => Err(e),
        Ok((site, at)) => {
            match uvint16_spec(bits, at) {
                Err(e) => Err(e),
                Ok((application, at)) => {
                    match uvint16_spec(bits, at) {
                        Err(e) => Err(e),
                        Ok((entity, at)) => {
                            Ok((EntityId { site, application, entity }, at))
                        },
                    }
                },
            }
        },
    }
}

/// Parses an entity identification: site, application, entity.
pub fn entity_identification<'a>(input: BitInput<'a>) -> (res: Result<
    (BitInput<'a>, EntityId),
    ParseError,
>)
    requires
        input.0@.len() <= MTU_BYTES,
    ensures
        match entity_identification_spec(input_bits(input), input.1 as int) {
            Ok((v, next)) => res == Ok::<(BitInput<'a>, EntityId), ParseError>(
                ((input.0, next as usize), v),
            ) && v.wf() && input.1 <= next <= input_bits(input).len(),
            Err(e) => res == Err::<(BitInput<'a>, EntityId), ParseError>(e),
        },
{
    let ghost bits = input_bits(input);
    proof {
        reveal(entity_identification_spec);
        lemma2_to64();
    }
    let (input, site) = match uvint16(input) {
        Ok(r) => r,
        Err(e) => { return Err(e); },
    };
    let (input, application) = match uvint16(input) {
        Ok(r) => r,
        Err(e) => { return Err(e); },
    };
    let (input, entity) = match uvint16(input) {
        Ok(r) => r,
        Err(e) => { return Err(e); },
    };
    Ok((input, EntityId { site, application, entity }))
}

/// What an entity is. A record of 49 bits: kind and domain in 4 bits each, the
/// country in 9, and category, subcategory, specific and extra in 8 each.
#[derive(Clone, Copy, Debug, PartialEq, Eq, Structural)]
pub struct EntityType {
    pub kind: u8,
    pub domain: u8,
    pub country: u16,
    pub category: u8,
    pub subcategory: u8,
    pub specific: u8,
    pub extra: u8,
}

impl EntityType {
    pub fn new(
        kind: u8,
        domain: u8,
        country: u16,
        category: u8,
        subcategory: u8,
        specific: u8,
        extra: u8,
    ) -> (record: EntityType)
        ensures
            record == (
                EntityType { kind, domain, country, category, subcategory, specific, extra }
            ),
    {
        EntityType { kind, domain, country, category, subcategory, specific, extra }
    }

    /// How long the record is on the wire.
    pub proof fn lemma_wire_length(self)
        requires
            self.wf(),
        ensures
            self.wire_bits().len() == 49,
    {
        lemma2_to64();
        lemma_bits_of_len(self.kind as nat, 4);
        lemma_bits_of_len(self.domain as nat, 4);
        lemma_bits_of_len(self.country as nat, 9);
        lemma_bits_of_len(self.category as nat, 8);
        lemma_bits_of_len(self.subcategory as nat, 8);
        lemma_bits_of_len(self.specific as nat, 8);
        lemma_bits_of_len(self.extra as nat, 8);
    }

    /// A written record reads back as itself, and the reader stops where
    /// the writer did.
    pub proof fn lemma_round_trip(self, bits: Seq<bool>, at: int)
        requires
            self.wf(),
            0 <= at,
            at + self.wire_bits().len() <= bits.len(),
            bits.subrange(at, at + self.wire_bits().len()) == self.wire_bits(),
        ensures
            entity_type_spec(bits, at) == Ok::<(EntityType, int), ParseError>(
                (self, at + self.wire_bits().len()),
            ),
    {
        reveal(entity_type_spec);
        lemma2_to64();
        lemma_bits_of_len(self.kind as nat, 4);
        lemma_bits_of_len(self.domain as nat, 4);
        lemma_bits_of_len(self.country as nat, 9);
        lemma_bits_of_len(self.category as nat, 8);
        lemma_bits_of_len(self.subcategory as nat, 8);
        lemma_bits_of_len(self.specific as nat, 8);
        lemma_bits_of_len(self.extra as nat, 8);
        let p_kind = bits_of(self.kind as nat, 4);
        let p_domain = bits_of(self.domain as nat, 4);
        let p_country = bits_of(self.country as nat, 9);
        let p_category = bits_of(self.category as nat, 8);
        let p_subcategory = bits_of(self.subcategory as nat, 8);
        let p_specific = bits_of(self.specific as nat, 8);
        let p_extra = bits_of(self.extra as nat, 8);
        let w_kind = p_kind;
        let w_domain = w_kind + p_domain;
        let w_country = w_domain + p_country;
        let w_category = w_country + p_category;
        let w_subcategory = w_category + p_subcategory;
        let w_specific = w_subcategory + p_specific;
        lemma_split_written(bits, at, w_specific, p_extra);
        lemma_split_written(bits, at, w_subcategory, p_specific);
        lemma_split_written(bits, at, w_category, p_subcategory);
        lemma_split_written(bits, at, w_country, p_category);
        lemma_split_written(bits, at, w_domain, p_country);
        lemma_split_written(bits, at, w_kind, p_domain);
        lemma_read_written(bits, at, 4, self.kind as nat);
        lemma_read_written(bits, at + w_kind.len(), 4, self.domain as nat);
        lemma_read_written(bits, at + w_domain.len(), 9, self.country as nat);
        lemma_read_written(bits, at + w_country.len(), 8, self.category as nat);
        lemma_read_written(bits, at + w_category.len(), 8, self.subcategory as nat);
        lemma_read_written(bits, at + w_subcategory.len(), 8, self.specific as nat);
        lemma_read_written(bits, at + w_specific.len(), 8, self.extra as nat);
    }
}

impl SerializeCdis for EntityType {
    open spec fn wf(&self) -> bool {
        &&& self.kind <= 15
        &&& self.domain <= 15
        &&& self.country <= 511
    }

    open spec fn wire_bits(&self) -> Seq<bool> {
        bits_of(self.kind as nat, 4)
            + bits_of(self.domain as nat, 4)
            + bits_of(self.country as nat, 9)
            + bits_of(self.category as nat, 8)
            + bits_of(self.subcategory as nat, 8)
            + bits_of(self.specific as nat, 8)
            + bits_of(self.extra as nat, 8)
    }

    fn is_valid(&self) -> (valid: bool) {
        self.kind <= 15 && self.domain <= 15 && self.country <= 511
    }

    fn bit_length(&self) -> (length: usize)
        ensures
            length == 49,
    {
        proof {
            self.lemma_wire_length();
        }
        49
    }

    fn serialize(&self, buf: &mut BitBuffer, cursor: usize) -> (next: usize) {
        proof {
            lemma2_to64();
            lemma_bits_of_len(self.kind as nat, 4);
            lemma_bits_of_len(self.domain as nat, 4);
            lemma_bits_of_len(self.country as nat, 9);
            lemma_bits_of_len(self.category as nat, 8);
            lemma_bits_of_len(self.subcategory as nat, 8);
            lemma_bits_of_len(self.specific as nat, 8);
            lemma_bits_of_len(self.extra as nat, 8);
        }
        let ghost start = cursor;
        let cursor = write_value_with_length(buf, cursor, 4, self.kind as u32);
        let ghost written = bits_of(self.kind as nat, 4);
        let cursor = write_value_with_length(buf, cursor, 4, self.domain as u32);
        proof {
            lemma_overwrite_twice(old(buf)@, start as int, written, bits_of(self.domain as nat, 4));
        }
        let ghost written = written + bits_of(self.domain as nat, 4);
        let cursor = write_value_with_length(buf, cursor, 9, self.country as u32);
        proof {
            lemma_overwrite_twice(
                old(buf)@,
                start as int,
                written,
                bits_of(self.country as nat, 9),
            );
        }
        let ghost written = written + bits_of(self.country as nat, 9);
        let cursor = write_value_with_length(buf, cursor, 8, self.category as u32);
        proof {
            lemma_overwrite_twice(
                old(buf)@,
                start as int,
                written,
                bits_of(self.category as nat, 8),
            );
        }
        let ghost written = written + bits_of(self.category as nat, 8);
        let cursor = write_value_with_length(buf, cursor, 8, self.subcategory as u32);
        proof {
            lemma_overwrite_twice(
                old(buf)@,
                start as int,
                written,
                bits_of(self.subcategory as nat, 8),
            );
        }
        let ghost written = written + bits_of(self.subcategory as nat, 8);
        let cursor = write_value_with_length(buf, cursor, 8, self.specific as u32);
        proof {
            lemma_overwrite_twice(
                old(buf)@,
                start as int,
                written,
                bits_of(self.specific as nat, 8),
            );
        }
        let ghost written = written + bits_of(self.specific as nat, 8);
        let cursor = write_value_with_length(buf, cursor, 8, self.extra as u32);
        proof {
            lemma_overwrite_twice(old(buf)@, start as int, written, bits_of(self.extra as nat, 8));
        }
        cursor
    }
}

/// What parsing an entity type at `at` gives.
#[verifier::opaque]
pub open spec fn entity_type_spec(bits: Seq<bool>, at: int) -> Result<
    (EntityType, int),
    ParseError,
> {
    match read_spec(bits, at, 4) {
        Err(e) => Err(e),
        Ok((kind, at)) => {
            match read_spec(bits, at, 4) {
                Err(e) => Err(e),
                Ok((domain, at)) => {
                    match read_spec(bits, at, 9) {
                        Err(e) => Err(e),
                        Ok((country, at)) => {
                            match read_spec(bits, at, 8) {
                                Err(e) => Err(e),
                                Ok((category, at)) => {
                                    match read_spec(bits, at, 8) {
                                        Err(e) => Err(e),
                                        Ok((subcategory, at)) => {
                                            match read_spec(bits, at, 8) {
                                                Err(e) => Err(e),
                                                Ok((specific, at)) => {
                                                    match read_spec(bits, at, 8) {
                                                        Err(e) => Err(e),
                                                        Ok((extra, at)) => {
                                                            Ok(
                                                                (
                                                                    EntityType {
                                                                        kind: kind as u8,
                                                                        domain: domain as u8,
                                                                        country: country as u16,
                                                                        category: category as u8,
                                                                        subcategory: subcategory as u8,
                                                                        specific: specific as u8,
                                                                        extra: extra as u8,
                                                                    },
                                                                    at,
                                                                ),
                                                            )
                                                        },
                                                    }
                                                },
                                            }
                                        },
                                    }
                                },
                            }
                        },
                    }
                },
            }
        },
    }
}

/// Parses an entity type.
pub fn entity_type<'a>(input: BitInput<'a>) -> (res: Result<
    (BitInput<'a>, EntityType),
    ParseError,
>)
    requires
        input.0@.len() <= MTU_BYTES,
    ensures
        match entity_type_spec(input_bits(input), input.1 as int) {
            Ok((v, next)) => res == Ok::<(BitInput<'a>, EntityType), ParseError>(
                ((input.0, next as usize), v),
            ) && v.wf() && input.1 <= next <= input_bits(input).len(),
            Err(e) => res == Err::<(BitInput<'a>, EntityType), ParseError>(e),
        },
{
    let ghost bits = input_bits(input);
    proof {
        reveal(entity_type_spec);
        lemma2_to64();
    }
    let (input, kind) = match read_value_with_length(input, 4) {
        Ok(r) => r,
        Err(e) => { return Err(e); },
    };
    proof {
        lemma_value_of_bound(bits.subrange(input.1 - 4, input.1 as int));
    }
    let (input, domain) = match read_value_with_length(input, 4) {
        Ok(r) => r,
        Err(e) => { return Err(e); },
    };
    proof {
        lemma_value_of_bound(bits.subrange(input.1 - 4, input.1 as int));
    }
    let (input, country) = match read_value_with_length(input, 9) {
        Ok(r) => r,
        Err(e) => { return Err(e); },
    };
    proof {
        lemma_value_of_bound(bits.subrange(input.1 - 9, input.1 as int));
    }
    let (input, category) = match read_value_with_length(input, 8) {
        Ok(r) => r,
        Err(e) => { return Err(e); },
    };
    proof {
        lemma_value_of_bound(bits.subrange(input.1 - 8, input.1 as int));
    }
    let (input, subcategory) = match read_value_with_length(input, 8) {
        Ok(r) => r,
        Err(e) => { return Err(e); },
    };
    proof {
        lemma_value_of_bound(bits.subrange(input.1 - 8, input.1 as int));
    }
    let (input, specific) = match read_value_with_length(input, 8) {
        Ok(r) => r,
        Err(e) => { return Err(e); },
    };
    proof {
        lemma_value_of_bound(bits.subrange(input.1 - 8, input.1 as int));
    }
    let (input, extra) = match read_value_with_length(input, 8) {
        Ok(r) => r,
        Err(e) => { return Err(e); },
    };
    proof {
        lemma_value_of_bound(bits.subrange(input.1 - 8, input.1 as int));
    }
    Ok(
        (
            input,
            EntityType {
                kind: kind as u8,
                domain: domain as u8,
                country: country as u16,
                category: category as u8,
                subcategory: subcategory as u8,
                specific: specific as u8,
                extra: extra as u8,
            },
        ),
    )
}

/// A velocity. A record of 48 bits: three signed components of 16 bits.
#[derive(Clone, Copy, Debug, PartialEq, Eq, Structural)]
pub struct LinearVelocity {
    pub x: i16,
    pub y: i16,
    pub z: i16,
}

impl LinearVelocity {
    pub fn new(x: i16, y: i16, z: i16) -> (record: LinearVelocity)
        ensures
            record == (LinearVelocity { x, y, z }),
    {
        LinearVelocity { x, y, z }
    }

    /// How long the record is on the wire.
    pub proof fn lemma_wire_length(self)
        requires
            self.wf(),
        ensures
            self.wire_bits().len() == 48,
    {
        lemma2_to64();
        lemma_signed_bits(16, self.x as int);
        lemma_signed_bits(16, self.y as int);
        lemma_signed_bits(16, self.z as int);
    }

    /// A written record reads back as itself, and the reader stops where
    /// the writer did.
    pub proof fn lemma_round_trip(self, bits: Seq<bool>, at: int)
        requires
            self.wf(),
            0 <= at,
            at + self.wire_bits().len() <= bits.len(),
            bits.subrange(at, at + self.wire_bits().len()) == self.wire_bits(),
        ensures
            linear_velocity_spec(bits, at) == Ok::<(LinearVelocity, int), ParseError>(
                (self, at + self.wire_bits().len()),
            ),
    {
        reveal(linear_velocity_spec);
        lemma2_to64();
        lemma_signed_bits(16, self.x as int);
        lemma_signed_bits(16, self.y as int);
        lemma_signed_bits(16, self.z as int);
        let p_x = signed_bits(16, self.x as int);
        let p_y = signed_bits(16, self.y as int);
        let p_z = signed_bits(16, self.z as int);
        let w_x = p_x;
        let w_y = w_x + p_y;
        lemma_split_written(bits, at, w_y, p_z);
        lemma_split_written(bits, at, w_x, p_y);
        lemma_read_signed_written(bits, at, 16, self.x as int);
        lemma_read_signed_written(bits, at + w_x.len(), 16, self.y as int);
        lemma_read_signed_written(bits, at + w_y.len(), 16, self.z as int);
    }
}

impl SerializeCdis for LinearVelocity {
    open spec fn wf(&self) -> bool {
        true
    }

    open spec fn wire_bits(&self) -> Seq<bool> {
        signed_bits(16, self.x as int)
            + signed_bits(16, self.y as int)
            + signed_bits(16, self.z as int)
    }

    fn is_valid(&self) -> (valid: bool) {
        true
    }

    fn bit_length(&self) -> (length: usize)
        ensures
            length == 48,
    {
        proof {
            self.lemma_wire_length();
        }
        48
    }

    fn serialize(&self, buf: &mut BitBuffer, cursor: usize) -> (next: usize) {
        proof {
            lemma2_to64();
            lemma_signed_bits(16, self.x as int);
            lemma_signed_bits(16, self.y as int);
            lemma_signed_bits(16, self.z as int);
        }
        let ghost start = cursor;
        let cursor = write_signed_value(buf, cursor, 16, -32768, self.x as i32);
        let ghost written = signed_bits(16, self.x as int);
        let cursor = write_signed_value(buf, cursor, 16, -32768, self.y as i32);
        proof {
            lemma_overwrite_twice(old(buf)@, start as int, written, signed_bits(16, self.y as int));
        }
        let ghost written = written + signed_bits(16, self.y as int);
        let cursor = write_signed_value(buf, cursor, 16, -32768, self.z as i32);
        proof {
            lemma_overwrite_twice(old(buf)@, start as int, written, signed_bits(16, self.z as int));
        }
        cursor
    }
}

/// What parsing a linear velocity at `at` gives.
#[verifier::opaque]
pub open spec fn linear_velocity_spec(bits: Seq<bool>, at: int) -> Result<
    (LinearVelocity, int),
    ParseError,
> {
    match read_signed_spec(bits, at, 16) {
        Err(e) => Err(e),
        Ok((x, at)) => {
            match read_signed_spec(bits, at, 16) {
                Err(e) => Err(e),
                Ok((y, at)) => {
                    match read_signed_spec(bits, at, 16) {
                        Err(e) => Err(e),
                        Ok((z, at)) => {
                            Ok((LinearVelocity { x: x as i16, y: y as i16, z: z as i16 }, at))
                        },
                    }
                },
            }
        },
    }
}

/// Parses a linear velocity.
pub fn linear_velocity<'a>(input: BitInput<'a>) -> (res: Result<
    (BitInput<'a>, LinearVelocity),
    ParseError,
>)
    requires
        input.0@.len() <= MTU_BYTES,
    ensures
        match linear_velocity_spec(input_bits(input), input.1 as int) {
            Ok((v, next)) => res == Ok::<(BitInput<'a>, LinearVelocity), ParseError>(
                ((input.0, next as usize), v),
            ) && v.wf() && input.1 <= next <= input_bits(input).len(),
            Err(e) => res == Err::<(BitInput<'a>, LinearVelocity), ParseError>(e),
        },
{
    let ghost bits = input_bits(input);
    proof {
        reveal(linear_velocity_spec);
        lemma2_to64();
    }
    let (input, x) = match read_signed_value(input, 16, -32768) {
        Ok(r) => r,
        Err(e) => { return Err(e); },
    };
    let (input, y) = match read_signed_value(input, 16, -32768) {
        Ok(r) => r,
        Err(e) => { return Err(e); },
    };
    let (input, z) = match read_signed_value(input, 16, -32768) {
        Ok(r) => r,
        Err(e) => { return Err(e); },
    };
    Ok((input, LinearVelocity { x: x as i16, y: y as i16, z: z as i16 }))
}

/// A place on the globe. A record of 87 bits: the latitude in 31 signed bits,
/// the longitude in 32, the altitude above mean sea level in 24.
#[derive(Clone, Copy, Debug, PartialEq, Eq, Structural)]
pub struct WorldCoordinates {
    pub latitude: i32,
    pub longitude: i32,
    pub altitude_msl: i32,
}

impl WorldCoordinates {
    pub fn new(latitude: i32, longitude: i32, altitude_msl: i32) -> (record: WorldCoordinates)
        ensures
            record == (WorldCoordinates { latitude, longitude, altitude_msl }),
    {
        WorldCoordinates { latitude, longitude, altitude_msl }
    }

    /// How long the record is on the wire.
    pub proof fn lemma_wire_length(self)
        requires
            self.wf(),
        ensures
            self.wire_bits().len() == 87,
    {
        lemma2_to64();
        lemma_signed_bits(31, self.latitude as int);
        lemma_signed_bits(32, self.longitude as int);
        lemma_signed_bits(24, self.altitude_msl as int);
    }

    /// A written record reads back as itself, and the reader stops where
    /// the writer did.
    pub proof fn lemma_round_trip(self, bits: Seq<bool>, at: int)
        requires
            self.wf(),
            0 <= at,
            at + self.wire_bits().len() <= bits.len(),
            bits.subrange(at, at + self.wire_bits().len()) == self.wire_bits(),
        ensures
            world_coordinates_spec(bits, at) == Ok::<(WorldCoordinates, int), ParseError>(
                (self, at + self.wire_bits().len()),
            ),
    {
        reveal(world_coordinates_spec);
        lemma2_to64();
        lemma_signed_bits(31, self.latitude as int);
        lemma_signed_bits(32, self.longitude as int);
        lemma_signed_bits(24, self.altitude_msl as int);
        let p_latitude = signed_bits(31, self.latitude as int);
        let p_longitude = signed_bits(32, self.longitude as int);
        let p_altitude_msl = signed_bits(24, self.altitude_msl as int);
        let w_latitude = p_latitude;
        let w_longitude = w_latitude + p_longitude;
        lemma_split_written(bits, at, w_longitude, p_altitude_msl);
        lemma_split_written(bits, at, w_latitude, p_longitude);
        lemma_read_signed_written(bits, at, 31, self.latitude as int);
        lemma_read_signed_written(bits, at + w_latitude.len(), 32, self.longitude as int);
        lemma_read_signed_written(bits, at + w_longitude.len(), 24, self.altitude_msl as int);
    }
}

impl SerializeCdis for WorldCoordinates {
    open spec fn wf(&self) -> bool {
        &&& -1073741824 <= self.latitude <= 1073741823
        &&& -8388608 <= self.altitude_msl <= 8388607
    }

    open spec fn wire_bits(&self) -> Seq<bool> {
        signed_bits(31, self.latitude as int)
            + signed_bits(32, self.longitude as int)
            + signed_bits(24, self.altitude_msl as int)
    }

    fn is_valid(&self) -> (valid: bool) {
        -1073741824 <= self.latitude && self.latitude <= 1073741823
            && -8388608 <= self.altitude_msl && self.altitude_msl <= 8388607
    }

    fn bit_length(&self) -> (length: usize)
        ensures
            length == 87,
    {
        proof {
            self.lemma_wire_length();
        }
        87
    }

    fn serialize(&self, buf: &mut BitBuffer, cursor: usize) -> (next: usize) {
        proof {
            lemma2_to64();
            lemma_signed_bits(31, self.latitude as int);
            lemma_signed_bits(32, self.longitude as int);
            lemma_signed_bits(24, self.altitude_msl as int);
        }
        let ghost start = cursor;
        let cursor = write_signed_value(buf, cursor, 31, -1073741824, self.latitude);
        let ghost written = signed_bits(31, self.latitude as int);
        let cursor = write_signed_value(buf, cursor, 32, -2147483648, self.longitude);
        proof {
            lemma_overwrite_twice(
                old(buf)@,
                start as int,
                written,
                signed_bits(32, self.longitude as int),
            );
        }
        let ghost written = written + signed_bits(32, self.longitude as int);
        let cursor = write_signed_value(buf, cursor, 24, -8388608, self.altitude_msl);
        proof {
            lemma_overwrite_twice(
                old(buf)@,
                start as int,
                written,
                signed_bits(24, self.altitude_msl as int),
            );
        }
        cursor
    }
}

/// What parsing world coordinates at `at` gives.
#[verifier::opaque]
pub open spec fn world_coordinates_spec(bits: Seq<bool>, at: int) -> Result<
    (WorldCoordinates, int),
    ParseError,
> {
    match read_signed_spec(bits, at, 31) {
        Err(e) => Err(e),
        Ok((latitude, at)) => {
            match read_signed_spec(bits, at, 32) {
                Err(e) => Err(e),
                Ok((longitude, at)) => {
                    match read_signed_spec(bits, at, 24) {
                        Err(e) => Err(e),
                        Ok((altitude_msl, at)) => {
                            Ok(
                                (
                                    WorldCoordinates {
                                        latitude: latitude as i32,
                                        longitude: longitude as i32,
                                        altitude_msl: altitude_msl as i32,
                                    },
                                    at,
                                ),
                            )
                        },
                    }
                },
            }
        },
    }
}

/// Parses world coordinates.
pub fn world_coordinates<'a>(input: BitInput<'a>) -> (res: Result<
    (BitInput<'a>, WorldCoordinates),
    ParseError,
>)
    requires
        input.0@.len() <= MTU_BYTES,
    ensures
        match world_coordinates_spec(input_bits(input), input.1 as int) {
            Ok((v, next)) => res == Ok::<(BitInput<'a>, WorldCoordinates), ParseError>(
                ((input.0, next as usize), v),
            ) && v.wf() && input.1 <= next <= input_bits(input).len(),
            Err(e) => res == Err::<(BitInput<'a>, WorldCoordinates), ParseError>(e),
        },
{
    let ghost bits = input_bits(input);
    proof {
        reveal(world_coordinates_spec);
        lemma2_to64();
    }
    let (input, latitude) = match read_signed_value(input, 31, -1073741824) {
        Ok(r) => r,
        Err(e) => { return Err(e); },
    };
    let (input, longitude) = match read_signed_value(input, 32, -2147483648) {
        Ok(r) => r,
        Err(e) => { return Err(e); },
    };
    let (input, altitude_msl) = match read_signed_value(input, 24, -8388608) {
        Ok(r) => r,
        Err(e) => { return Err(e); },
    };
    Ok((input, WorldCoordinates { latitude, longitude, altitude_msl }))
}

/// An attitude. A record of 39 bits: three signed angles of 13 bits.
#[derive(Clone, Copy, Debug, PartialEq, Eq, Structural)]
pub struct Orientation {
    pub psi: i16,
    pub theta: i16,
    pub phi: i16,
}

impl Orientation {
    pub fn new(psi: i16, theta: i16, phi: i16) -> (record: Orientation)
        ensures
            record == (Orientation { psi, theta, phi }),
    {
        Orientation { psi, theta, phi }
    }

    /// How long the record is on the wire.
    pub proof fn lemma_wire_length(self)
        requires
            self.wf(),
        ensures
            self.wire_bits().len() == 39,
    {
        lemma2_to64();
        lemma_signed_bits(13, self.psi as int);
        lemma_signed_bits(13, self.theta as int);
        lemma_signed_bits(13, self.phi as int);
    }

    /// A written record reads back as itself, and the reader stops where
    /// the writer did.
    pub proof fn lemma_round_trip(self, bits: Seq<bool>, at: int)
        requires
            self.wf(),
            0 <= at,
            at + self.wire_bits().len() <= bits.len(),
            bits.subrange(at, at + self.wire_bits().len()) == self.wire_bits(),
        ensures
            orientation_spec(bits, at) == Ok::<(Orientation, int), ParseError>(
                (self, at + self.wire_bits().len()),
            ),
    {
        reveal(orientation_spec);
        lemma2_to64();
        lemma_signed_bits(13, self.psi as int);
        lemma_signed_bits(13, self.theta as int);
        lemma_signed_bits(13, self.phi as int);
        let p_psi = signed_bits(13, self.psi as int);
        let p_theta = signed_bits(13, self.theta as int);
        let p_phi = signed_bits(13, self.phi as int);
        let w_psi = p_psi;
        let w_theta = w_psi + p_theta;
        lemma_split_written(bits, at, w_theta, p_phi);
        lemma_split_written(bits, at, w_psi, p_theta);
        lemma_read_signed_written(bits, at, 13, self.psi as int);
        lemma_read_signed_written(bits, at + w_psi.len(), 13, self.theta as int);
        lemma_read_signed_written(bits, at + w_theta.len(), 13, self.phi as int);
    }
}

impl SerializeCdis for Orientation {
    open spec fn wf(&self) -> bool {
        &&& -4096 <= self.psi <= 4095
        &&& -4096 <= self.theta <= 4095
        &&& -4096 <= self.phi <= 4095
    }

    open spec fn wire_bits(&self) -> Seq<bool> {
        signed_bits(13, self.psi as int)
            + signed_bits(13, self.theta as int)
            + signed_bits(13, self.phi as int)
    }

    fn is_valid(&self) -> (valid: bool) {
        -4096 <= self.psi && self.psi <= 4095
            && -4096 <= self.theta && self.theta <= 4095
            && -4096 <= self.phi && self.phi <= 4095
    }

    fn bit_length(&self) -> (length: usize)
        ensures
            length == 39,
    {
        proof {
            self.lemma_wire_length();
        }
        39
    }

    fn serialize(&self, buf: &mut BitBuffer, cursor: usize) -> (next: usize) {
        proof {
            lemma2_to64();
            lemma_signed_bits(13, self.psi as int);
            lemma_signed_bits(13, self.theta as int);
            lemma_signed_bits(13, self.phi as int);
        }
        let ghost start = cursor;
        let cursor = write_signed_value(buf, cursor, 13, -4096, self.psi as i32);
        let ghost written = signed_bits(13, self.psi as int);
        let cursor = write_signed_value(buf, cursor, 13, -4096, self.theta as i32);
        proof {
            lemma_overwrite_twice(
                old(buf)@,
                start as int,
                written,
                signed_bits(13, self.theta as int),
            );
        }
        let ghost written = written + signed_bits(13, self.theta as int);
        let cursor = write_signed_value(buf, cursor, 13, -4096, self.phi as i32);
        proof {
            lemma_overwrite_twice(
                old(buf)@,
                start as int,
                written,
                signed_bits(13, self.phi as int),
            );
        }
        cursor
    }
}

/// What parsing an orientation at `at` gives.
#[verifier::opaque]
pub open spec fn orientation_spec(bits: Seq<bool>, at: int) -> Result<
    (Orientation, int),
    ParseError,
> {
    match read_signed_spec(bits, at, 13) {
        Err(e) => Err(e),
        Ok((psi, at)) => {
            match read_signed_spec(bits, at, 13) {
                Err(e) => Err(e),
                Ok((theta, at)) => {
                    match read_signed_spec(bits, at, 13) {
                        Err(e) => Err(e),
                        Ok((phi, at)) => {
                            Ok(
                                (
                                    Orientation {
                                        psi: psi as i16,
                                        theta: theta as i16,
                                        phi: phi as i16,
                                    },
                                    at,
                                ),
                            )
                        },
                    }
                },
            }
        },
    }
}

/// Parses an orientation.
pub fn orientation<'a>(input: BitInput<'a>) -> (res: Result<
    (BitInput<'a>, Orientation),
    ParseError,
>)
    requires
        input.0@.len() <= MTU_BYTES,
    ensures
        match orientation_spec(input_bits(input), input.1 as int) {
            Ok((v, next)) => res == Ok::<(BitInput<'a>, Orientation), ParseError>(
                ((input.0, next as usize), v),
            ) && v.wf() && input.1 <= next <= input_bits(input).len(),
            Err(e) => res == Err::<(BitInput<'a>, Orientation), ParseError>(e),
        },
{
    let ghost bits = input_bits(input);
    proof {
        reveal(orientation_spec);
        lemma2_to64();
    }
    let (input, psi) = match read_signed_value(input, 13, -4096) {
        Ok(r) => r,
        Err(e) => { return Err(e); },
    };
    let (input, theta) = match read_signed_value(input, 13, -4096) {
        Ok(r) => r,
        Err(e) => { return Err(e); },
    };
    let (input, phi) = match read_signed_value(input, 13, -4096) {
        Ok(r) => r,
        Err(e) => { return Err(e); },
    };
    Ok((input, Orientation { psi: psi as i16, theta: theta as i16, phi: phi as i16 }))
}

/// How an entity looks: 32 bits that this layer does not read.
#[derive(Clone, Copy, Debug, PartialEq, Eq, Structural)]
pub struct EntityAppearance {
    pub value: u32,
}

impl EntityAppearance {
    pub fn new(value: u32) -> (record: EntityAppearance)
        ensures
            record == (EntityAppearance { value }),
    {
        EntityAppearance { value }
    }

    /// How long the record is on the wire.
    pub proof fn lemma_wire_length(self)
        requires
            self.wf(),
        ensures
            self.wire_bits().len() == 32,
    {
        lemma2_to64();
        lemma_bits_of_len(self.value as nat, 32);
    }

    /// A written record reads back as itself, and the reader stops where
    /// the writer did.
    pub proof fn lemma_round_trip(self, bits: Seq<bool>, at: int)
        requires
            self.wf(),
            0 <= at,
            at + self.wire_bits().len() <= bits.len(),
            bits.subrange(at, at + self.wire_bits().len()) == self.wire_bits(),
        ensures
            entity_appearance_spec(bits, at) == Ok::<(EntityAppearance, int), ParseError>(
                (self, at + self.wire_bits().len()),
            ),
    {
        reveal(entity_appearance_spec);
        lemma2_to64();
        lemma_bits_of_len(self.value as nat, 32);
        let p_value = bits_of(self.value as nat, 32);
        let w_value = p_value;
        lemma_read_written(bits, at, 32, self.value as nat);
    }
}

impl SerializeCdis for EntityAppearance {
    open spec fn wf(&self) -> bool {
        true
    }

    open spec fn wire_bits(&self) -> Seq<bool> {
        bits_of(self.value as nat, 32)
    }

    fn is_valid(&self) -> (valid: bool) {
        true
    }

    fn bit_length(&self) -> (length: usize)
        ensures
            length == 32,
    {
        proof {
            self.lemma_wire_length();
        }
        32
    }

    fn serialize(&self, buf: &mut BitBuffer, cursor: usize) -> (next: usize) {
        proof {
            lemma2_to64();
            lemma_bits_of_len(self.value as nat, 32);
        }
        let cursor = write_value_with_length(buf, cursor, 32, self.value);
        cursor
    }
}

/// What parsing an entity appearance at `at` gives.
#[verifier::opaque]
pub open spec fn entity_appearance_spec(bits: Seq<bool>, at: int) -> Result<
    (EntityAppearance, int),
    ParseError,
> {
    match read_spec(bits, at, 32) {
        Err(e) => Err(e),
        Ok((value, at)) => {
            Ok((EntityAppearance { value: value as u32 }, at))
        },
    }
}

/// Parses an entity appearance.
pub fn entity_appearance<'a>(input: BitInput<'a>) -> (res: Result<
    (BitInput<'a>, EntityAppearance),
    ParseError,
>)
    requires
        input.0@.len() <= MTU_BYTES,
    ensures
        match entity_appearance_spec(input_bits(input), input.1 as int) {
            Ok((v, next)) => res == Ok::<(BitInput<'a>, EntityAppearance), ParseError>(
                ((input.0, next as usize), v),
            ) && v.wf() && input.1 <= next <= input_bits(input).len(),
            Err(e) => res == Err::<(BitInput<'a>, EntityAppearance), ParseError>(e),
        },
{
    let ghost bits = input_bits(input);
    proof {
        reveal(entity_appearance_spec);
        lemma2_to64();
    }
    let (input, value) = match read_value_with_length(input, 32) {
        Ok(r) => r,
        Err(e) => { return Err(e); },
    };
    proof {
        lemma_value_of_bound(bits.subrange(input.1 - 32, input.1 as int));
    }
    Ok((input, EntityAppearance { value }))
}

/// The other dead-reckoning parameters. A record of 120 bits: the algorithm in
/// 8 bits, then 112 bits of parameters in four words of 16, 32, 32 and 32 bits.
#[derive(Clone, Copy, Debug, PartialEq, Eq, Structural)]
pub struct DrParametersOther {
    pub algorithm: u8,
    pub word0: u16,
    pub word1: u32,
    pub word2: u32,
    pub word3: u32,
}

impl DrParametersOther {
    pub fn new(
        algorithm: u8,
        word0: u16,
        word1: u32,
        word2: u32,
        word3: u32,
    ) -> (record: DrParametersOther)
        ensures
            record == (DrParametersOther { algorithm, word0, word1, word2, word3 }),
    {
        DrParametersOther { algorithm, word0, word1, word2, word3 }
    }

    /// How long the record is on the wire.
    pub proof fn lemma_wire_length(self)
        requires
            self.wf(),
        ensures
            self.wire_bits().len() == 120,
    {
        lemma2_to64();
        lemma_bits_of_len(self.algorithm as nat, 8);
        lemma_bits_of_len(self.word0 as nat, 16);
        lemma_bits_of_len(self.word1 as nat, 32);
        lemma_bits_of_len(self.word2 as nat, 32);
        lemma_bits_of_len(self.word3 as nat, 32);
    }

    /// A written record reads back as itself, and the reader stops where
    /// the writer did.
    pub proof fn lemma_round_trip(self, bits: Seq<bool>, at: int)
        requires
            self.wf(),
            0 <= at,
            at + self.wire_bits().len() <= bits.len(),
            bits.subrange(at, at + self.wire_bits().len()) == self.wire_bits(),
        ensures
            dr_parameters_other_spec(bits, at) == Ok::<(DrParametersOther, int), ParseError>(
                (self, at + self.wire_bits().len()),
            ),
    {
        reveal(dr_parameters_other_spec);
        lemma2_to64();
        lemma_bits_of_len(self.algorithm as nat, 8);
        lemma_bits_of_len(self.word0 as nat, 16);
        lemma_bits_of_len(self.word1 as nat, 32);
        lemma_bits_of_len(self.word2 as nat, 32);
        lemma_bits_of_len(self.word3 as nat, 32);
        let p_algorithm = bits_of(self.algorithm as nat, 8);
        let p_word0 = bits_of(self.word0 as nat, 16);
        let p_word1 = bits_of(self.word1 as nat, 32);
        let p_word2 = bits_of(self.word2 as nat, 32);
        let p_word3 = bits_of(self.word3 as nat, 32);
        let w_algorithm = p_algorithm;
        let w_word0 = w_algorithm + p_word0;
        let w_word1 = w_word0 + p_word1;
        let w_word2 = w_word1 + p_word2;
        lemma_split_written(bits, at, w_word2, p_word3);
        lemma_split_written(bits, at, w_word1, p_word2);
        lemma_split_written(bits, at, w_word0, p_word1);
        lemma_split_written(bits, at, w_algorithm, p_word0);
        lemma_read_written(bits, at, 8, self.algorithm as nat);
        lemma_read_written(bits, at + w_algorithm.len(), 16, self.word0 as nat);
        lemma_read_written(bits, at + w_word0.len(), 32, self.word1 as nat);
        lemma_read_written(bits, at + w_word1.len(), 32, self.word2 as nat);
        lemma_read_written(bits, at + w_word2.len(), 32, self.word3 as nat);
    }
}

impl SerializeCdis for DrParametersOther {
    open spec fn wf(&self) -> bool {
        true
    }

    open spec fn wire_bits(&self) -> Seq<bool> {
        bits_of(self.algorithm as nat, 8)
            + bits_of(self.word0 as nat, 16)
            + bits_of(self.word1 as nat, 32)
            + bits_of(self.word2 as nat, 32)
            + bits_of(self.word3 as nat, 32)
    }

    fn is_valid(&self) -> (valid: bool) {
        true
    }

    fn bit_length(&self) -> (length: usize)
        ensures
            length == 120,
    {
        proof {
            self.lemma_wire_length();
        }
        120
    }

    fn serialize(&self, buf: &mut BitBuffer, cursor: usize) -> (next: usize) {
        proof {
            lemma2_to64();
            lemma_bits_of_len(self.algorithm as nat, 8);
            lemma_bits_of_len(self.word0 as nat, 16);
            lemma_bits_of_len(self.word1 as nat, 32);
            lemma_bits_of_len(self.word2 as nat, 32);
            lemma_bits_of_len(self.word3 as nat, 32);
        }
        let ghost start = cursor;
        let cursor = write_value_with_length(buf, cursor, 8, self.algorithm as u32);
        let ghost written = bits_of(self.algorithm as nat, 8);
        let cursor = write_value_with_length(buf, cursor, 16, self.word0 as u32);
        proof {
            lemma_overwrite_twice(old(buf)@, start as int, written, bits_of(self.word0 as nat, 16));
        }
        let ghost written = written + bits_of(self.word0 as nat, 16);
        let cursor = write_value_with_length(buf, cursor, 32, self.word1);
        proof {
            lemma_overwrite_twice(old(buf)@, start as int, written, bits_of(self.word1 as nat, 32));
        }
        let ghost written = written + bits_of(self.word1 as nat, 32);
        let cursor = write_value_with_length(buf, cursor, 32, self.word2);
        proof {
            lemma_overwrite_twice(old(buf)@, start as int, written, bits_of(self.word2 as nat, 32));
        }
        let ghost written = written + bits_of(self.word2 as nat, 32);
        let cursor = write_value_with_length(buf, cursor, 32, self.word3);
        proof {
            lemma_overwrite_twice(old(buf)@, start as int, written, bits_of(self.word3 as nat, 32));
        }
        cursor
    }
}

/// What parsing the other dead-reckoning parameters at `at` gives.
#[verifier::opaque]
pub open spec fn dr_parameters_other_spec(bits: Seq<bool>, at: int) -> Result<
    (DrParametersOther, int),
    ParseError,
> {
    match read_spec(bits, at, 8) {
        Err(e) => Err(e),
        Ok((algorithm, at)) => {
            match read_spec(bits, at, 16) {
                Err(e) => Err(e),
                Ok((word0, at)) => {
                    match read_spec(bits, at, 32) {
                        Err(e) => Err(e),
                        Ok((word1, at)) => {
                            match read_spec(bits, at, 32) {
                                Err(e) => Err(e),
                                Ok((word2, at)) => {
                                    match read_spec(bits, at, 32) {
                                        Err(e) => Err(e),
                                        Ok((word3, at)) => {
                                            Ok(
                                                (
                                                    DrParametersOther {
                                                        algorithm: algorithm as u8,
                                                        word0: word0 as u16,
                                                        word1: word1 as u32,
                                                        word2: word2 as u32,
                                                        word3: word3 as u32,
                                                    },
                                                    at,
                                                ),
                                            )
                                        },
                                    }
                                },
                            }
                        },
                    }
                },
            }
        },
    }
}

/// Parses the other dead-reckoning parameters.
pub fn dr_parameters_other<'a>(input: BitInput<'a>) -> (res: Result<
    (BitInput<'a>, DrParametersOther),
    ParseError,
>)
    requires
        input.0@.len() <= MTU_BYTES,
    ensures
        match dr_parameters_other_spec(input_bits(input), input.1 as int) {
            Ok((v, next)) => res == Ok::<(BitInput<'a>, DrParametersOther), ParseError>(
                ((input.0, next as usize), v),
            ) && v.wf() && input.1 <= next <= input_bits(input).len(),
            Err(e) => res == Err::<(BitInput<'a>, DrParametersOther), ParseError>(e),
        },
{
    let ghost bits = input_bits(input);
    proof {
        reveal(dr_parameters_other_spec);
        lemma2_to64();
    }
    let (input, algorithm) = match read_value_with_length(input, 8) {
        Ok(r) => r,
        Err(e) => { return Err(e); },
    };
    proof {
        lemma_value_of_bound(bits.subrange(input.1 - 8, input.1 as int));
    }
    let (input, word0) = match read_value_with_length(input, 16) {
        Ok(r) => r,
        Err(e) => { return Err(e); },
    };
    proof {
        lemma_value_of_bound(bits.subrange(input.1 - 16, input.1 as int));
    }
    let (input, word1) = match read_value_with_length(input, 32) {
        Ok(r) => r,
        Err(e) => { return Err(e); },
    };
    proof {
        lemma_value_of_bound(bits.subrange(input.1 - 32, input.1 as int));
    }
    let (input, word2) = match read_value_with_length(input, 32) {
        Ok(r) => r,
        Err(e) => { return Err(e); },
    };
    proof {
        lemma_value_of_bound(bits.subrange(input.1 - 32, input.1 as int));
    }
    let (input, word3) = match read_value_with_length(input, 32) {
        Ok(r) => r,
        Err(e) => { return Err(e); },
    };
    proof {
        lemma_value_of_bound(bits.subrange(input.1 - 32, input.1 as int));
    }
    Ok(
        (
            input,
            DrParametersOther {
                algorithm: algorithm as u8,
                word0: word0 as u16,
                word1,
                word2,
                word3,
            },
        ),
    )
}

/// A dead-reckoning acceleration: three components, each an SVINT14.
#[derive(Clone, Copy, Debug, PartialEq, Eq, Structural)]
pub struct LinearAcceleration {
    pub x: SVINT14,
    pub y: SVINT14,
    pub z: SVINT14,
}

impl LinearAcceleration {
    pub fn new(x: SVINT14, y: SVINT14, z: SVINT14) -> (record: LinearAcceleration)
        ensures
            record == (LinearAcceleration { x, y, z }),
    {
        LinearAcceleration { x, y, z }
    }

    /// How long the record is on the wire.
    pub proof fn lemma_wire_length(self)
        requires
            self.wf(),
        ensures
            self.wire_bits().len() <= 48,
    {
        self.x.lemma_wire_length();
        self.y.lemma_wire_length();
        self.z.lemma_wire_length();
    }

    /// A written record reads back as itself, and the reader stops where
    /// the writer did.
    pub proof fn lemma_round_trip(self, bits: Seq<bool>, at: int)
        requires
            self.wf(),
            0 <= at,
            at + self.wire_bits().len() <= bits.len(),
            bits.subrange(at, at + self.wire_bits().len()) == self.wire_bits(),
        ensures
            linear_acceleration_spec(bits, at) == Ok::<(LinearAcceleration, int), ParseError>(
                (self, at + self.wire_bits().len()),
            ),
    {
        reveal(linear_acceleration_spec);
        self.x.lemma_wire_length();
        self.y.lemma_wire_length();
        self.z.lemma_wire_length();
        let p_x = self.x.wire_bits();
        let p_y = self.y.wire_bits();
        let p_z = self.z.wire_bits();
        let w_x = p_x;
        let w_y = w_x + p_y;
        lemma_split_written(bits, at, w_y, p_z);
        lemma_split_written(bits, at, w_x, p_y);
        self.x.lemma_round_trip(bits, at);
        self.y.lemma_round_trip(bits, at + w_x.len());
        self.z.lemma_round_trip(bits, at + w_y.len());
    }
}

impl SerializeCdis for LinearAcceleration {
    open spec fn wf(&self) -> bool {
        &&& self.x.wf()
        &&& self.y.wf()
        &&& self.z.wf()
    }

    open spec fn wire_bits(&self) -> Seq<bool> {
        self.x.wire_bits() + self.y.wire_bits() + self.z.wire_bits()
    }

    fn is_valid(&self) -> (valid: bool) {
        self.x.is_valid() && self.y.is_valid() && self.z.is_valid()
    }

    fn bit_length(&self) -> (length: usize)
        ensures
            length <= 48,
    {
        proof {
            self.lemma_wire_length();
        }
        self.x.bit_length() + self.y.bit_length() + self.z.bit_length()
    }

    fn serialize(&self, buf: &mut BitBuffer, cursor: usize) -> (next: usize) {
        proof {
            self.x.lemma_wire_length();
            self.y.lemma_wire_length();
            self.z.lemma_wire_length();
        }
        let ghost start = cursor;
        let cursor = self.x.serialize(buf, cursor);
        let ghost written = self.x.wire_bits();
        let cursor = self.y.serialize(buf, cursor);
        proof {
            lemma_overwrite_twice(old(buf)@, start as int, written, self.y.wire_bits());
        }
        let ghost written = written + self.y.wire_bits();
        let cursor = self.z.serialize(buf, cursor);
        proof {
            lemma_overwrite_twice(old(buf)@, start as int, written, self.z.wire_bits());
        }
        cursor
    }
}

/// What parsing a linear acceleration at `at` gives.
#[verifier::opaque]
pub open spec fn linear_acceleration_spec(bits: Seq<bool>, at: int) -> Result<
    (LinearAcceleration, int),
    ParseError,
> {
    match svint14_spec(bits, at) {
        Err(e) => Err(e),
        Ok((x, at)) => {
            match svint14_spec(bits, at) {
                Err(e) => Err(e),
                Ok((y, at)) => {
                    match svint14_spec(bits, at) {
                        Err(e) => Err(e),
                        Ok((z, at)) => {
                            Ok((LinearAcceleration { x, y, z }, at))
                        },
                    }
                },
            }
        },
    }
}

/// Parses a linear acceleration.
pub fn linear_acceleration<'a>(input: BitInput<'a>) -> (res: Result<
    (BitInput<'a>, LinearAcceleration),
    ParseError,
>)
    requires
        input.0@.len() <= MTU_BYTES,
    ensures
        match linear_acceleration_spec(input_bits(input), input.1 as int) {
            Ok((v, next)) => res == Ok::<(BitInput<'a>, LinearAcceleration), ParseError>(
                ((input.0, next as usize), v),
            ) && v.wf() && input.1 <= next <= input_bits(input).len(),
            Err(e) => res == Err::<(BitInput<'a>, LinearAcceleration), ParseError>(e),
        },
{
    let ghost bits = input_bits(input);
    proof {
        reveal(linear_acceleration_spec);
        lemma2_to64();
    }
    let (input, x) = match svint14(input) {
        Ok(r) => r,
        Err(e) => { return Err(e); },
    };
    let (input, y) = match svint14(input) {
        Ok(r) => r,
        Err(e) => { return Err(e); },
    };
    let (input, z) = match svint14(input) {
        Ok(r) => r,
        Err(e) => { return Err(e); },
    };
    Ok((input, LinearAcceleration { x, y, z }))
}

/// A dead-reckoning rate of turn: three components, each an SVINT12.
#[derive(Clone, Copy, Debug, PartialEq, Eq, Structural)]
pub struct AngularVelocity {
    pub x: SVINT12,
    pub y: SVINT12,
    pub z: SVINT12,
}

impl AngularVelocity {
    pub fn new(x: SVINT12, y: SVINT12, z: SVINT12) -> (record: AngularVelocity)
        ensures
            record == (AngularVelocity { x, y, z }),
    {
        AngularVelocity { x, y, z }
    }

    /// How long the record is on the wire.
    pub proof fn lemma_wire_length(self)
        requires
            self.wf(),
        ensures
            self.wire_bits().len() <= 42,
    {
        self.x.lemma_wire_length();
        self.y.lemma_wire_length();
        self.z.lemma_wire_length();
    }

    /// A written record reads back as itself, and the reader stops where
    /// the writer did.
    pub proof fn lemma_round_trip(self, bits: Seq<bool>, at: int)
        requires
            self.wf(),
            0 <= at,
            at + self.wire_bits().len() <= bits.len(),
            bits.subrange(at, at + self.wire_bits().len()) == self.wire_bits(),
        ensures
            angular_velocity_spec(bits, at) == Ok::<(AngularVelocity, int), ParseError>(
                (self, at + self.wire_bits().len()),
            ),
    {
        reveal(angular_velocity_spec);
        self.x.lemma_wire_length();
        self.y.lemma_wire_length();
        self.z.lemma_wire_length();
        let p_x = self.x.wire_bits();
        let p_y = self.y.wire_bits();
        let p_z = self.z.wire_bits();
        let w_x = p_x;
        let w_y = w_x + p_y;
        lemma_split_written(bits, at, w_y, p_z);
        lemma_split_written(bits, at, w_x, p_y);
        self.x.lemma_round_trip(bits, at);
        self.y.lemma_round_trip(bits, at + w_x.len());
        self.z.lemma_round_trip(bits, at + w_y.len());
    }
}

impl SerializeCdis for AngularVelocity {
    open spec fn wf(&self) -> bool {
        &&& self.x.wf()
        &&& self.y.wf()
        &&& self.z.wf()
    }

    open spec fn wire_bits(&self) -> Seq<bool> {
        self.x.wire_bits() + self.y.wire_bits() + self.z.wire_bits()
    }

    fn is_valid(&self) -> (valid: bool) {
        self.x.is_valid() && self.y.is_valid() && self.z.is_valid()
    }

    fn bit_length(&self) -> (length: usize)
        ensures
            length <= 42,
    {
        proof {
            self.lemma_wire_length();
        }
        self.x.bit_length() + self.y.bit_length() + self.z.bit_length()
    }

    fn serialize(&self, buf: &mut BitBuffer, cursor: usize) -> (next: usize) {
        proof {
            self.x.lemma_wire_length();
            self.y.lemma_wire_length();
            self.z.lemma_wire_length();
        }
        let ghost start = cursor;
        let cursor = self.x.serialize(buf, cursor);
        let ghost written = self.x.wire_bits();
        let cursor = self.y.serialize(buf, cursor);
        proof {
            lemma_overwrite_twice(old(buf)@, start as int, written, self.y.wire_bits());
        }
        let ghost written = written + self.y.wire_bits();
        let cursor = self.z.serialize(buf, cursor);
        proof {
            lemma_overwrite_twice(old(buf)@, start as int, written, self.z.wire_bits());
        }
        cursor
    }
}

/// What parsing an angular velocity at `at` gives.
#[verifier::opaque]
pub open spec fn angular_velocity_spec(bits: Seq<bool>, at: int) -> Result<
    (AngularVelocity, int),
    ParseError,
> {
    match svint12_spec(bits, at) {
        Err(e) => Err(e),
        Ok((x, at)) => {
            match svint12_spec(bits, at) {
                Err(e) => Err(e),
                Ok((y, at)) => {
                    match svint12_spec(bits, at) {
                        Err(e) => Err(e),
                        Ok((z, at)) => {
                            Ok((AngularVelocity { x, y, z }, at))
                        },
                    }
                },
            }
        },
    }
}

/// Parses an angular velocity.
pub fn angular_velocity<'a>(input: BitInput<'a>) -> (res: Result<
    (BitInput<'a>, AngularVelocity),
    ParseError,
>)
    requires
        input.0@.len() <= MTU_BYTES,
    ensures
        match angular_velocity_spec(input_bits(input), input.1 as int) {
            Ok((v, next)) => res == Ok::<(BitInput<'a>, AngularVelocity), ParseError>(
                ((input.0, next as usize), v),
            ) && v.wf() && input.1 <= next <= input_bits(input).len(),
            Err(e) => res == Err::<(BitInput<'a>, AngularVelocity), ParseError>(e),
        },
{
    let ghost bits = input_bits(input);
    proof {
        reveal(angular_velocity_spec);
        lemma2_to64();
    }
    let (input, x) = match svint12(input) {
        Ok(r) => r,
        Err(e) => { return Err(e); },
    };
    let (input, y) = match svint12(input) {
        Ok(r) => r,
        Err(e) => { return Err(e); },
    };
    let (input, z) = match svint12(input) {
        Ok(r) => r,
        Err(e) => { return Err(e); },
    };
    Ok((input, AngularVelocity { x, y, z }))
}

} // verus!
