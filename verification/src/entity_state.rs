//! The entity state body: a header of presence bits and two flags, the
//! entity's identification, and then the optional fields in a fixed order.
//! The order of the fields on the wire is this module's own; it does not
//! follow from the numbering of the presence bits.

use vstd::prelude::*;
use vstd::arithmetic::power2::lemma2_to64;
use crate::constants::{MTU_BYTES, MTU_BITS, ONE_BIT, THIRTEEN_BITS};
use crate::bits::{bits_of, bytes_bits, overwrite, value_of, lemma_bits_of_len, lemma_overwrite_len,
    lemma_overwrite_twice, lemma_split_written, lemma_value_of_bound};
use crate::buffer::{BitBuffer, BitInput, input_bits, read_spec, read_value_with_length,
    write_value_with_length};
use crate::codec::SerializeCdis;
use crate::conditional::{is_present, mask_matches, optional_bits, optional_is_valid,
    optional_length, optional_wf, parse_field_when_present, serialize_field_when_present,
    when_present};
use crate::error::{CdisError, Field, ParseError};
use crate::marking::{entity_marking_spec, EntityMarking};
use crate::records::{
    entity_identification,
    entity_identification_spec,
    angular_velocity,
    angular_velocity_spec,
    dr_parameters_other,
    dr_parameters_other_spec,
    entity_appearance,
    entity_appearance_spec,
    entity_type_spec,
    linear_acceleration,
    linear_acceleration_spec,
    linear_velocity,
    linear_velocity_spec,
    orientation,
    orientation_spec,
    world_coordinates,
    world_coordinates_spec,
    EntityId,
    AngularVelocity,
    DrParametersOther,
    EntityAppearance,
    EntityType,
    LinearAcceleration,
    LinearVelocity,
    Orientation,
    WorldCoordinates,
};
use crate::uvint::{uvint32, uvint32_spec, uvint8, uvint8_spec, UVINT32, UVINT8};
use crate::varint::{lemma_one_bit, lemma_read_written};

verus! {

pub const FPF_BIT_FORCE_ID: u16 = 0x1000;

pub const FPF_BIT_VP: u16 = 0x0800;

pub const FPF_BIT_ENTITY_TYPE: u16 = 0x0400;

pub const FPF_BIT_ALT_ENTITY_TYPE: u16 = 0x0200;

pub const FPF_BIT_LIN_VELOCITY: u16 = 0x0100;

pub const FPF_BIT_ENTITY_LOCATION: u16 = 0x0080;

pub const FPF_BIT_ENTITY_ORIENTATION: u16 = 0x0040;

pub const FPF_BIT_ENTITY_APPEARANCE: u16 = 0x0020;

pub const FPF_BIT_DR_OTHER: u16 = 0x0010;

pub const FPF_BIT_DR_LIN_ACCELERATION: u16 = 0x0008;

pub const FPF_BIT_DR_ANG_VELOCITY: u16 = 0x0004;

pub const FPF_BIT_MARKING: u16 = 0x0002;

pub const FPF_BIT_CAPABILITIES: u16 = 0x0001;

/// The unit in which a body gives lengths.
#[derive(Clone, Copy, Debug, PartialEq, Eq, Structural)]
pub enum Units {
    Centimeter,
    Dekameter,
}

impl Units {
    /// The unit's flag on the wire.
    pub open spec fn flag(self) -> nat {
        match self {
            Units::Centimeter => 0,
            Units::Dekameter => 1,
        }
    }

    /// The unit that a flag names.
    pub open spec fn of_flag(flag: nat) -> Units {
        if flag == 0 {
            Units::Centimeter
        } else {
            Units::Dekameter
        }
    }

    pub fn flag_bits_value(&self) -> (flag: u8)
        ensures
            flag == self.flag(),
    {
        match self {
            Units::Centimeter => 0,
            Units::Dekameter => 1,
        }
    }

    pub fn from_flag(flag: u8) -> (units: Units)
        ensures
            units == Units::of_flag(flag as nat),
    {
        if flag == 0 {
            Units::Centimeter
        } else {
            Units::Dekameter
        }
    }
}

/// A flag as a number.
pub open spec fn flag_of(flag: bool) -> nat {
    if flag {
        1
    } else {
        0
    }
}

/// A field's presence bit when the field is there.
pub open spec fn mask_bit(present: bool, mask: u16) -> u16 {
    if present {
        mask
    } else {
        0
    }
}

/// What stands before the optional fields of a body.
#[derive(Clone, Copy, Debug, PartialEq, Eq, Structural)]
pub struct BodyHeader {
    pub fields_present: u16,
    pub units: Units,
    pub full_update_flag: bool,
    pub entity_id: EntityId,
}

/// The header on the wire: 13 presence bits, the units flag, the
/// full-update flag, and the entity's identification.
pub open spec fn header_bits(header: BodyHeader) -> Seq<bool> {
    bits_of(header.fields_present as nat, 13) + bits_of(header.units.flag(), 1) + bits_of(
        flag_of(header.full_update_flag),
        1,
    ) + header.entity_id.wire_bits()
}

/// What parsing a header at `at` gives.
#[verifier::opaque]
pub open spec fn header_spec(bits: Seq<bool>, at: int) -> Result<(BodyHeader, int), CdisError> {
    match read_spec(bits, at, 13) {
        Err(cause) => Err(CdisError::MalformedBody { field: Field::FieldsPresent, cause }),
        Ok((fields_present, at)) => {
            match read_spec(bits, at, 1) {
                Err(cause) => Err(CdisError::MalformedBody { field: Field::Units, cause }),
                Ok((units, at)) => {
                    match read_spec(bits, at, 1) {
                        Err(cause) => Err(
                            CdisError::MalformedBody { field: Field::FullUpdateFlag, cause },
                        ),
                        Ok((full_update, at)) => {
                            match entity_identification_spec(bits, at) {
                                Err(cause) => Err(
                                    CdisError::MalformedBody { field: Field::EntityId, cause },
                                ),
                                Ok((entity_id, at)) => {
                                    Ok(
                                        (
                                            BodyHeader {
                                                fields_present: fields_present as u16,
                                                units: Units::of_flag(units),
                                                full_update_flag: full_update == 1,
                                                entity_id,
                                            },
                                            at,
                                        ),
                                    )
                                },
                            }
                        },
                    }
                },
            }
        },
    }
}

/// A written header reads back as itself.
pub proof fn lemma_header_round_trip(header: BodyHeader, bits: Seq<bool>, at: int)
    requires
        header.fields_present <= 0x1fff,
        header.entity_id.wf(),
        0 <= at,
        at + header_bits(header).len() <= bits.len(),
        bits.subrange(at, at + header_bits(header).len()) == header_bits(header),
    ensures
        header_bits(header).len() == 15 + header.entity_id.wire_bits().len(),
        header_spec(bits, at) == Ok::<(BodyHeader, int), CdisError>(
            (header, at + header_bits(header).len()),
        ),
{
    reveal(header_spec);
    lemma2_to64();
    lemma_bits_of_len(header.fields_present as nat, 13);
    lemma_bits_of_len(header.units.flag(), 1);
    lemma_bits_of_len(flag_of(header.full_update_flag), 1);
    let p_0 = bits_of(header.fields_present as nat, 13);
    let p_1 = bits_of(header.units.flag(), 1);
    let p_2 = bits_of(flag_of(header.full_update_flag), 1);
    let p_3 = header.entity_id.wire_bits();
    lemma_split_written(bits, at, p_0 + p_1 + p_2, p_3);
    lemma_split_written(bits, at, p_0 + p_1, p_2);
    lemma_split_written(bits, at, p_0, p_1);
    lemma_read_written(bits, at, 13, header.fields_present as nat);
    lemma_read_written(bits, at + 13, 1, header.units.flag());
    lemma_read_written(bits, at + 14, 1, flag_of(header.full_update_flag));
    header.entity_id.lemma_round_trip(bits, at + 15);
}

fn parse_header<'a>(input: BitInput<'a>) -> (res: Result<(BitInput<'a>, BodyHeader), CdisError>)
    requires
        input.0@.len() <= MTU_BYTES,
    ensures
        match header_spec(input_bits(input), input.1 as int) {
            Ok((header, next)) => {
                &&& res == Ok::<(BitInput<'a>, BodyHeader), CdisError>(
                    ((input.0, next as usize), header),
                )
                &&& header.entity_id.wf()
                &&& input.1 <= next <= input_bits(input).len()
            },
            Err(e) => res == Err::<(BitInput<'a>, BodyHeader), CdisError>(e),
        },
{
    let ghost bits = input_bits(input);
    let ghost at = input.1 as int;
    proof {
        reveal(header_spec);
        lemma2_to64();
    }
    let (input, fields_present) = match read_value_with_length(input, THIRTEEN_BITS) {
        Ok(r) => r,
        Err(cause) => {
            return Err(CdisError::MalformedBody { field: Field::FieldsPresent, cause });
        },
    };
    proof {
        lemma_value_of_bound(bits.subrange(at, at + 13));
    }
    let fields_present = fields_present as u16;
    let (input, units) = match read_value_with_length(input, ONE_BIT) {
        Ok(r) => r,
        Err(cause) => {
            return Err(CdisError::MalformedBody { field: Field::Units, cause });
        },
    };
    proof {
        lemma_value_of_bound(bits.subrange(at + 13, at + 14));
    }
    let units = Units::from_flag(units as u8);
    let (input, full_update_flag) = match read_value_with_length(input, ONE_BIT) {
        Ok(r) => r,
        Err(cause) => {
            return Err(CdisError::MalformedBody { field: Field::FullUpdateFlag, cause });
        },
    };
    proof {
        lemma_value_of_bound(bits.subrange(at + 14, at + 15));
    }
    let full_update_flag = full_update_flag != 0;
    let (input, entity_id) = match entity_identification(input) {
        Ok(r) => r,
        Err(cause) => {
            return Err(CdisError::MalformedBody { field: Field::EntityId, cause });
        },
    };
    Ok((input, BodyHeader { fields_present, units, full_update_flag, entity_id }))
}

fn serialize_header(header: &BodyHeader, buf: &mut BitBuffer, cursor: usize) -> (next: usize)
    requires
        header.entity_id.wf(),
        cursor + header_bits(*header).len() <= MTU_BITS,
    ensures
        next == cursor + header_bits(*header).len(),
        final(buf)@ == overwrite(old(buf)@, cursor as int, header_bits(*header)),
{
    proof {
        lemma_bits_of_len(header.fields_present as nat, 13);
        lemma_bits_of_len(header.units.flag(), 1);
        lemma_bits_of_len(flag_of(header.full_update_flag), 1);
    }
    let ghost start = cursor;
    let full_update: u32 = if header.full_update_flag { 1 } else { 0 };
    let cursor = write_value_with_length(buf, cursor, THIRTEEN_BITS, header.fields_present as u32);
    let ghost written = bits_of(header.fields_present as nat, 13);
    let cursor = write_value_with_length(
        buf,
        cursor,
        ONE_BIT,
        header.units.flag_bits_value() as u32,
    );
    proof {
        lemma_overwrite_twice(old(buf)@, start as int, written, bits_of(header.units.flag(), 1));
    }
    let ghost written = written + bits_of(header.units.flag(), 1);
    let cursor = write_value_with_length(buf, cursor, ONE_BIT, full_update);
    proof {
        lemma_overwrite_twice(
            old(buf)@,
            start as int,
            written,
            bits_of(flag_of(header.full_update_flag), 1),
        );
    }
    let ghost written = written + bits_of(flag_of(header.full_update_flag), 1);
    let cursor = header.entity_id.serialize(buf, cursor);
    proof {
        lemma_overwrite_twice(old(buf)@, start as int, written, header.entity_id.wire_bits());
    }
    cursor
}

/// One entity's state, with the fields that this update carries.
#[derive(Clone, Copy, Debug, PartialEq, Eq)]
pub struct EntityState {
    pub units: Units,
    pub full_update_flag: bool,
    pub entity_id: EntityId,
    pub force_id: Option<UVINT8>,
    pub number_of_var_params: Option<UVINT8>,
    pub entity_type: Option<EntityType>,
    pub alternate_entity_type: Option<EntityType>,
    pub entity_linear_velocity: Option<LinearVelocity>,
    pub entity_location: Option<WorldCoordinates>,
    pub entity_orientation: Option<Orientation>,
    pub entity_appearance: Option<EntityAppearance>,
    pub dr_params_other: Option<DrParametersOther>,
    pub dr_params_entity_linear_acceleration: Option<LinearAcceleration>,
    pub dr_params_entity_angular_velocity: Option<AngularVelocity>,
    pub entity_marking: Option<EntityMarking>,
    pub capabilities: Option<UVINT32>,
}

/// A mask picks a set bit exactly when the two have a bit in common.
pub proof fn lemma_mask_matches(fields: u16, mask: u16)
    ensures
        mask_matches(fields, mask) == (fields & mask != 0),
{
    assert(((fields as u64) & (mask as u64) != 0) == (fields & mask != 0)) by (bit_vector);
}

proof fn lemma_mask_bits(
    m0: u16,
    m1: u16,
    m2: u16,
    m3: u16,
    m4: u16,
    m5: u16,
    m6: u16,
    m7: u16,
    m8: u16,
    m9: u16,
    m10: u16,
    m11: u16,
    m12: u16,
    all: u16,
)
    by (bit_vector)
    requires
        m0 == 0 || m0 == 0x1000,
        m1 == 0 || m1 == 0x0800,
        m2 == 0 || m2 == 0x0400,
        m3 == 0 || m3 == 0x0200,
        m4 == 0 || m4 == 0x0100,
        m5 == 0 || m5 == 0x0080,
        m6 == 0 || m6 == 0x0040,
        m7 == 0 || m7 == 0x0020,
        m8 == 0 || m8 == 0x0010,
        m9 == 0 || m9 == 0x0008,
        m10 == 0 || m10 == 0x0004,
        m11 == 0 || m11 == 0x0002,
        m12 == 0 || m12 == 0x0001,
        all == m0 | m1 | m2 | m3 | m4 | m5 | m6 | m7 | m8 | m9 | m10 | m11 | m12,
    ensures
        all <= 0x1fff,
        (all & 0x1000 != 0) == (m0 != 0),
        (all & 0x0800 != 0) == (m1 != 0),
        (all & 0x0400 != 0) == (m2 != 0),
        (all & 0x0200 != 0) == (m3 != 0),
        (all & 0x0100 != 0) == (m4 != 0),
        (all & 0x0080 != 0) == (m5 != 0),
        (all & 0x0040 != 0) == (m6 != 0),
        (all & 0x0020 != 0) == (m7 != 0),
        (all & 0x0010 != 0) == (m8 != 0),
        (all & 0x0008 != 0) == (m9 != 0),
        (all & 0x0004 != 0) == (m10 != 0),
        (all & 0x0002 != 0) == (m11 != 0),
        (all & 0x0001 != 0) == (m12 != 0),
{
}

impl EntityState {
    /// The presence bits of the fields that are there.
    pub open spec fn presence_mask(self) -> u16 {
        mask_bit(self.force_id is Some, FPF_BIT_FORCE_ID)
            | mask_bit(self.number_of_var_params is Some, FPF_BIT_VP)
            | mask_bit(self.entity_type is Some, FPF_BIT_ENTITY_TYPE)
            | mask_bit(self.alternate_entity_type is Some, FPF_BIT_ALT_ENTITY_TYPE)
            | mask_bit(self.entity_linear_velocity is Some, FPF_BIT_LIN_VELOCITY)
            | mask_bit(self.entity_location is Some, FPF_BIT_ENTITY_LOCATION)
            | mask_bit(self.entity_orientation is Some, FPF_BIT_ENTITY_ORIENTATION)
            | mask_bit(self.entity_appearance is Some, FPF_BIT_ENTITY_APPEARANCE)
            | mask_bit(self.dr_params_other is Some, FPF_BIT_DR_OTHER)
            | mask_bit(
                self.dr_params_entity_linear_acceleration is Some,
                FPF_BIT_DR_LIN_ACCELERATION,
            )
            | mask_bit(self.dr_params_entity_angular_velocity is Some, FPF_BIT_DR_ANG_VELOCITY)
            | mask_bit(self.entity_marking is Some, FPF_BIT_MARKING)
            | mask_bit(self.capabilities is Some, FPF_BIT_CAPABILITIES)
    }

    /// What stands before the optional fields.
    pub open spec fn header(self) -> BodyHeader {
        BodyHeader {
            fields_present: self.presence_mask(),
            units: self.units,
            full_update_flag: self.full_update_flag,
            entity_id: self.entity_id,
        }
    }

    /// The optional fields that are there are those that a header with these
    /// flags asks for.
    pub open spec fn presence_follows(self, full_update: bool, fields_present: u16) -> bool {
        &&& (self.force_id is Some) == is_present(full_update, fields_present, FPF_BIT_FORCE_ID)
        &&& (self.number_of_var_params is Some) == is_present(
            full_update,
            fields_present,
            FPF_BIT_VP,
        )
        &&& (self.entity_type is Some) == is_present(
            full_update,
            fields_present,
            FPF_BIT_ENTITY_TYPE,
        )
        &&& (self.alternate_entity_type is Some) == is_present(
            full_update,
            fields_present,
            FPF_BIT_ALT_ENTITY_TYPE,
        )
        &&& (self.entity_linear_velocity is Some) == is_present(
            full_update,
            fields_present,
            FPF_BIT_LIN_VELOCITY,
        )
        &&& (self.entity_location is Some) == is_present(
            full_update,
            fields_present,
            FPF_BIT_ENTITY_LOCATION,
        )
        &&& (self.entity_orientation is Some) == is_present(
            full_update,
            fields_present,
            FPF_BIT_ENTITY_ORIENTATION,
        )
        &&& (self.entity_appearance is Some) == is_present(
            full_update,
            fields_present,
            FPF_BIT_ENTITY_APPEARANCE,
        )
        &&& (self.dr_params_other is Some) == is_present(
            full_update,
            fields_present,
            FPF_BIT_DR_OTHER,
        )
        &&& (self.dr_params_entity_linear_acceleration is Some) == is_present(
            full_update,
            fields_present,
            FPF_BIT_DR_LIN_ACCELERATION,
        )
        &&& (self.dr_params_entity_angular_velocity is Some) == is_present(
            full_update,
            fields_present,
            FPF_BIT_DR_ANG_VELOCITY,
        )
        &&& (self.entity_marking is Some) == is_present(
            full_update,
            fields_present,
            FPF_BIT_MARKING,
        )
        &&& (self.capabilities is Some) == is_present(
            full_update,
            fields_present,
            FPF_BIT_CAPABILITIES,
        )
    }

    /// Every optional field is there.
    pub open spec fn all_present(self) -> bool {
        self.kind_present()
            && self.kinematic_present()
            && self.dead_reckoning_present()
            && self.label_present()
    }

    /// Every optional field is there when the body is a full update.
    pub open spec fn complete(self) -> bool {
        self.full_update_flag ==> self.all_present()
    }

    /// The first optional field, in wire order, that is not there.
    pub open spec fn first_missing(self) -> Field {
        if self.force_id is None {
            Field::ForceId
        } else if self.number_of_var_params is None {
            Field::NumberOfVariableParameters
        } else if self.entity_type is None {
            Field::EntityType
        } else if self.alternate_entity_type is None {
            Field::AlternateEntityType
        } else if self.entity_linear_velocity is None {
            Field::LinearVelocity
        } else if self.entity_location is None {
            Field::Location
        } else if self.entity_orientation is None {
            Field::Orientation
        } else if self.entity_appearance is None {
            Field::Appearance
        } else if self.dr_params_other is None {
            Field::DrOther
        } else if self.dr_params_entity_linear_acceleration is None {
            Field::DrLinearAcceleration
        } else if self.dr_params_entity_angular_velocity is None {
            Field::DrAngularVelocity
        } else if self.entity_marking is None {
            Field::Marking
        } else {
            Field::Capabilities
        }
    }

    /// Every value in the body can be written.
    pub open spec fn values_wf(self) -> bool {
        self.entity_id.wf()
            && self.kind_wf()
            && self.kinematic_wf()
            && self.dead_reckoning_wf()
            && self.label_wf()
    }

    /// The bits of the fields that say what the entity is.
    pub open spec fn kind_bits(self) -> Seq<bool> {
        optional_bits(self.force_id)
            + optional_bits(self.number_of_var_params)
            + optional_bits(self.entity_type)
            + optional_bits(self.alternate_entity_type)
    }

    /// The fields that say what the entity is can be written.
    pub open spec fn kind_wf(self) -> bool {
        &&& optional_wf(self.force_id)
        &&& optional_wf(self.number_of_var_params)
        &&& optional_wf(self.entity_type)
        &&& optional_wf(self.alternate_entity_type)
    }

    /// The fields that say what the entity is are all there.
    pub open spec fn kind_present(self) -> bool {
        &&& self.force_id is Some
        &&& self.number_of_var_params is Some
        &&& self.entity_type is Some
        &&& self.alternate_entity_type is Some
    }

    pub proof fn lemma_kind_length(self)
        requires
            self.kind_wf(),
        ensures
            self.kind_bits().len() <= 116,
            self.kind_bits().len() == optional_bits(self.force_id).len()
                + optional_bits(self.number_of_var_params).len()
                + optional_bits(self.entity_type).len()
                + optional_bits(self.alternate_entity_type).len(),
    {
        assert(optional_bits(self.force_id).len() <= 9) by {
            match self.force_id {
                Some(v) => v.lemma_wire_length(),
                None => {},
            }
        }
        assert(optional_bits(self.number_of_var_params).len() <= 9) by {
            match self.number_of_var_params {
                Some(v) => v.lemma_wire_length(),
                None => {},
            }
        }
        assert(optional_bits(self.entity_type).len() <= 49) by {
            match self.entity_type {
                Some(v) => v.lemma_wire_length(),
                None => {},
            }
        }
        assert(optional_bits(self.alternate_entity_type).len() <= 49) by {
            match self.alternate_entity_type {
                Some(v) => v.lemma_wire_length(),
                None => {},
            }
        }
    }

    /// The fields that say what the entity is read back as they were written.
    pub proof fn lemma_kind_round_trip(self, fields_present: u16, bits: Seq<bool>, at: int)
        requires
            self.kind_wf(),
            0 <= at,
            at + self.kind_bits().len() <= bits.len(),
            bits.subrange(at, at + self.kind_bits().len()) == self.kind_bits(),
            is_present(self.full_update_flag, fields_present, FPF_BIT_FORCE_ID) == (
                self.force_id is Some
            ),
            is_present(self.full_update_flag, fields_present, FPF_BIT_VP) == (
                self.number_of_var_params is Some
            ),
            is_present(self.full_update_flag, fields_present, FPF_BIT_ENTITY_TYPE) == (
                self.entity_type is Some
            ),
            is_present(self.full_update_flag, fields_present, FPF_BIT_ALT_ENTITY_TYPE) == (
                self.alternate_entity_type is Some
            ),
        ensures
            kind_fields_spec(bits, at, self.full_update_flag, fields_present) == Ok::<
                (KindFields, int),
                CdisError,
            >(
                (
                    (
                        self.force_id,
                        self.number_of_var_params,
                        self.entity_type,
                        self.alternate_entity_type,
                    ),
                    at + self.kind_bits().len(),
                ),
            ),
    {
        reveal(kind_fields_spec);
        self.lemma_kind_length();
        let p_0 = optional_bits(self.force_id);
        let p_1 = optional_bits(self.number_of_var_params);
        let p_2 = optional_bits(self.entity_type);
        let p_3 = optional_bits(self.alternate_entity_type);
        let w_0 = p_0;
        let w_1 = w_0 + p_1;
        let w_2 = w_1 + p_2;
        let w_3 = w_2 + p_3;
        lemma_split_written(bits, at, w_2, p_3);
        lemma_split_written(bits, at, w_1, p_2);
        lemma_split_written(bits, at, w_0, p_1);
        assert(when_present(self.force_id is Some, uvint8_spec(bits, at), at) == Ok::<
            (Option<UVINT8>, int),
            ParseError,
        >((self.force_id, at + w_0.len()))) by {
            match self.force_id {
                Some(v) => v.lemma_round_trip(bits, at),
                None => {},
            }
        }
        assert(when_present(
            self.number_of_var_params is Some,
            uvint8_spec(bits, at + w_0.len()),
            at + w_0.len(),
        ) == Ok::<
            (Option<UVINT8>, int),
            ParseError,
        >((self.number_of_var_params, at + w_1.len()))) by {
            match self.number_of_var_params {
                Some(v) => v.lemma_round_trip(bits, at + w_0.len()),
                None => {},
            }
        }
        assert(when_present(
            self.entity_type is Some,
            entity_type_spec(bits, at + w_1.len()),
            at + w_1.len(),
        ) == Ok::<
            (Option<EntityType>, int),
            ParseError,
        >((self.entity_type, at + w_2.len()))) by {
            match self.entity_type {
                Some(v) => v.lemma_round_trip(bits, at + w_1.len()),
                None => {},
            }
        }
        assert(when_present(
            self.alternate_entity_type is Some,
            entity_type_spec(bits, at + w_2.len()),
            at + w_2.len(),
        ) == Ok::<
            (Option<EntityType>, int),
            ParseError,
        >((self.alternate_entity_type, at + w_3.len()))) by {
            match self.alternate_entity_type {
                Some(v) => v.lemma_round_trip(bits, at + w_2.len()),
                None => {},
            }
        }
    }

    fn kind_is_valid(&self) -> (valid: bool)
        ensures
            valid == self.kind_wf(),
    {
        optional_is_valid(&self.force_id)
            && optional_is_valid(&self.number_of_var_params)
            && optional_is_valid(&self.entity_type)
            && optional_is_valid(&self.alternate_entity_type)
    }

    fn kind_length(&self) -> (length: usize)
        requires
            self.kind_wf(),
        ensures
            length == self.kind_bits().len(),
            length <= 116,
    {
        proof {
            self.lemma_kind_length();
        }
        let length = optional_length(&self.force_id);
        let length = length + optional_length(&self.number_of_var_params);
        let length = length + optional_length(&self.entity_type);
        let length = length + optional_length(&self.alternate_entity_type);
        length
    }

    fn serialize_kind(&self, buf: &mut BitBuffer, cursor: usize) -> (next: usize)
        requires
            self.kind_wf(),
            cursor + self.kind_bits().len() <= MTU_BITS,
        ensures
            next == cursor + self.kind_bits().len(),
            final(buf)@ == overwrite(old(buf)@, cursor as int, self.kind_bits()),
    {
        proof {
            self.lemma_kind_length();
        }
        let ghost start = cursor;
        let cursor = serialize_field_when_present(&self.force_id, buf, cursor);
        let ghost written = optional_bits(self.force_id);
        let cursor = serialize_field_when_present(&self.number_of_var_params, buf, cursor);
        proof {
            lemma_overwrite_twice(
                old(buf)@,
                start as int,
                written,
                optional_bits(self.number_of_var_params),
            );
        }
        let ghost written = written + optional_bits(self.number_of_var_params);
        let cursor = serialize_field_when_present(&self.entity_type, buf, cursor);
        proof {
            lemma_overwrite_twice(
                old(buf)@,
                start as int,
                written,
                optional_bits(self.entity_type),
            );
        }
        let ghost written = written + optional_bits(self.entity_type);
        let cursor = serialize_field_when_present(&self.alternate_entity_type, buf, cursor);
        proof {
            lemma_overwrite_twice(
                old(buf)@,
                start as int,
                written,
                optional_bits(self.alternate_entity_type),
            );
        }
        cursor
    }

    /// The bits of the fields that say where the entity is and how it looks.
    pub open spec fn kinematic_bits(self) -> Seq<bool> {
        optional_bits(self.entity_linear_velocity)
            + optional_bits(self.entity_location)
            + optional_bits(self.entity_orientation)
            + optional_bits(self.entity_appearance)
    }

    /// The fields that say where the entity is and how it looks can be written.
    pub open spec fn kinematic_wf(self) -> bool {
        &&& optional_wf(self.entity_linear_velocity)
        &&& optional_wf(self.entity_location)
        &&& optional_wf(self.entity_orientation)
        &&& optional_wf(self.entity_appearance)
    }

    /// The fields that say where the entity is and how it looks are all there.
    pub open spec fn kinematic_present(self) -> bool {
        &&& self.entity_linear_velocity is Some
        &&& self.entity_location is Some
        &&& self.entity_orientation is Some
        &&& self.entity_appearance is Some
    }

    pub proof fn lemma_kinematic_length(self)
        requires
            self.kinematic_wf(),
        ensures
            self.kinematic_bits().len() <= 206,
            self.kinematic_bits().len() == optional_bits(self.entity_linear_velocity).len()
                + optional_bits(self.entity_location).len()
                + optional_bits(self.entity_orientation).len()
                + optional_bits(self.entity_appearance).len(),
    {
        assert(optional_bits(self.entity_linear_velocity).len() <= 48) by {
            match self.entity_linear_velocity {
                Some(v) => v.lemma_wire_length(),
                None => {},
            }
        }
        assert(optional_bits(self.entity_location).len() <= 87) by {
            match self.entity_location {
                Some(v) => v.lemma_wire_length(),
                None => {},
            }
        }
        assert(optional_bits(self.entity_orientation).len() <= 39) by {
            match self.entity_orientation {
                Some(v) => v.lemma_wire_length(),
                None => {},
            }
        }
        assert(optional_bits(self.entity_appearance).len() <= 32) by {
            match self.entity_appearance {
                Some(v) => v.lemma_wire_length(),
                None => {},
            }
        }
    }

    /// The fields that say where the entity is and how it looks read back as they were written.
    pub proof fn lemma_kinematic_round_trip(self, fields_present: u16, bits: Seq<bool>, at: int)
        requires
            self.kinematic_wf(),
            0 <= at,
            at + self.kinematic_bits().len() <= bits.len(),
            bits.subrange(at, at + self.kinematic_bits().len()) == self.kinematic_bits(),
            is_present(self.full_update_flag, fields_present, FPF_BIT_LIN_VELOCITY) == (
                self.entity_linear_velocity is Some
            ),
            is_present(self.full_update_flag, fields_present, FPF_BIT_ENTITY_LOCATION) == (
                self.entity_location is Some
            ),
            is_present(self.full_update_flag, fields_present, FPF_BIT_ENTITY_ORIENTATION) == (
                self.entity_orientation is Some
            ),
            is_present(self.full_update_flag, fields_present, FPF_BIT_ENTITY_APPEARANCE) == (
                self.entity_appearance is Some
            ),
        ensures
            kinematic_fields_spec(bits, at, self.full_update_flag, fields_present) == Ok::<
                (KinematicFields, int),
                CdisError,
            >(
                (
                    (
                        self.entity_linear_velocity,
                        self.entity_location,
                        self.entity_orientation,
                        self.entity_appearance,
                    ),
                    at + self.kinematic_bits().len(),
                ),
            ),
    {
        reveal(kinematic_fields_spec);
        self.lemma_kinematic_length();
        let p_0 = optional_bits(self.entity_linear_velocity);
        let p_1 = optional_bits(self.entity_location);
        let p_2 = optional_bits(self.entity_orientation);
        let p_3 = optional_bits(self.entity_appearance);
        let w_0 = p_0;
        let w_1 = w_0 + p_1;
        let w_2 = w_1 + p_2;
        let w_3 = w_2 + p_3;
        lemma_split_written(bits, at, w_2, p_3);
        lemma_split_written(bits, at, w_1, p_2);
        lemma_split_written(bits, at, w_0, p_1);
        assert(when_present(
            self.entity_linear_velocity is Some,
            linear_velocity_spec(bits, at),
            at,
        ) == Ok::<
            (Option<LinearVelocity>, int),
            ParseError,
        >((self.entity_linear_velocity, at + w_0.len()))) by {
            match self.entity_linear_velocity {
                Some(v) => v.lemma_round_trip(bits, at),
                None => {},
            }
        }
        assert(when_present(
            self.entity_location is Some,
            world_coordinates_spec(bits, at + w_0.len()),
            at + w_0.len(),
        ) == Ok::<
            (Option<WorldCoordinates>, int),
            ParseError,
        >((self.entity_location, at + w_1.len()))) by {
            match self.entity_location {
                Some(v) => v.lemma_round_trip(bits, at + w_0.len()),
                None => {},
            }
        }
        assert(when_present(
            self.entity_orientation is Some,
            orientation_spec(bits, at + w_1.len()),
            at + w_1.len(),
        ) == Ok::<
            (Option<Orientation>, int),
            ParseError,
        >((self.entity_orientation, at + w_2.len()))) by {
            match self.entity_orientation {
                Some(v) => v.lemma_round_trip(bits, at + w_1.len()),
                None => {},
            }
        }
        assert(when_present(
            self.entity_appearance is Some,
            entity_appearance_spec(bits, at + w_2.len()),
            at + w_2.len(),
        ) == Ok::<
            (Option<EntityAppearance>, int),
            ParseError,
        >((self.entity_appearance, at + w_3.len()))) by {
            match self.entity_appearance {
                Some(v) => v.lemma_round_trip(bits, at + w_2.len()),
                None => {},
            }
        }
    }

    fn kinematic_is_valid(&self) -> (valid: bool)
        ensures
            valid == self.kinematic_wf(),
    {
        optional_is_valid(&self.entity_linear_velocity)
            && optional_is_valid(&self.entity_location)
            && optional_is_valid(&self.entity_orientation)
            && optional_is_valid(&self.entity_appearance)
    }

    fn kinematic_length(&self) -> (length: usize)
        requires
            self.kinematic_wf(),
        ensures
            length == self.kinematic_bits().len(),
            length <= 206,
    {
        proof {
            self.lemma_kinematic_length();
        }
        let length = optional_length(&self.entity_linear_velocity);
        let length = length + optional_length(&self.entity_location);
        let length = length + optional_length(&self.entity_orientation);
        let length = length + optional_length(&self.entity_appearance);
        length
    }

    fn serialize_kinematic(&self, buf: &mut BitBuffer, cursor: usize) -> (next: usize)
        requires
            self.kinematic_wf(),
            cursor + self.kinematic_bits().len() <= MTU_BITS,
        ensures
            next == cursor + self.kinematic_bits().len(),
            final(buf)@ == overwrite(old(buf)@, cursor as int, self.kinematic_bits()),
    {
        proof {
            self.lemma_kinematic_length();
        }
        let ghost start = cursor;
        let cursor = serialize_field_when_present(&self.entity_linear_velocity, buf, cursor);
        let ghost written = optional_bits(self.entity_linear_velocity);
        let cursor = serialize_field_when_present(&self.entity_location, buf, cursor);
        proof {
            lemma_overwrite_twice(
                old(buf)@,
                start as int,
                written,
                optional_bits(self.entity_location),
            );
        }
        let ghost written = written + optional_bits(self.entity_location);
        let cursor = serialize_field_when_present(&self.entity_orientation, buf, cursor);
        proof {
            lemma_overwrite_twice(
                old(buf)@,
                start as int,
                written,
                optional_bits(self.entity_orientation),
            );
        }
        let ghost written = written + optional_bits(self.entity_orientation);
        let cursor = serialize_field_when_present(&self.entity_appearance, buf, cursor);
        proof {
            lemma_overwrite_twice(
                old(buf)@,
                start as int,
                written,
                optional_bits(self.entity_appearance),
            );
        }
        cursor
    }

    /// The bits of the fields that say how the entity will move.
    pub open spec fn dead_reckoning_bits(self) -> Seq<bool> {
        optional_bits(self.dr_params_other)
            + optional_bits(self.dr_params_entity_linear_acceleration)
            + optional_bits(self.dr_params_entity_angular_velocity)
    }

    /// The fields that say how the entity will move can be written.
    pub open spec fn dead_reckoning_wf(self) -> bool {
        &&& optional_wf(self.dr_params_other)
        &&& optional_wf(self.dr_params_entity_linear_acceleration)
        &&& optional_wf(self.dr_params_entity_angular_velocity)
    }

    /// The fields that say how the entity will move are all there.
    pub open spec fn dead_reckoning_present(self) -> bool {
        &&& self.dr_params_other is Some
        &&& self.dr_params_entity_linear_acceleration is Some
        &&& self.dr_params_entity_angular_velocity is Some
    }

    pub proof fn lemma_dead_reckoning_length(self)
        requires
            self.dead_reckoning_wf(),
        ensures
            self.dead_reckoning_bits().len() <= 210,
            self.dead_reckoning_bits().len() == optional_bits(self.dr_params_other).len()
                + optional_bits(self.dr_params_entity_linear_acceleration).len()
                + optional_bits(self.dr_params_entity_angular_velocity).len(),
    {
        assert(optional_bits(self.dr_params_other).len() <= 120) by {
            match self.dr_params_other {
                Some(v) => v.lemma_wire_length(),
                None => {},
            }
        }
        assert(optional_bits(self.dr_params_entity_linear_acceleration).len() <= 48) by {
            match self.dr_params_entity_linear_acceleration {
                Some(v) => v.lemma_wire_length(),
                None => {},
            }
        }
        assert(optional_bits(self.dr_params_entity_angular_velocity).len() <= 42) by {
            match self.dr_params_entity_angular_velocity {
                Some(v) => v.lemma_wire_length(),
                None => {},
            }
        }
    }

    /// The fields that say how the entity will move read back as they were written.
    pub proof fn lemma_dead_reckoning_round_trip(
        self,
        fields_present: u16,
        bits: Seq<bool>,
        at: int,
    )
        requires
            self.dead_reckoning_wf(),
            0 <= at,
            at + self.dead_reckoning_bits().len() <= bits.len(),
            bits.subrange(at, at + self.dead_reckoning_bits().len()) == self.dead_reckoning_bits(),
            is_present(self.full_update_flag, fields_present, FPF_BIT_DR_OTHER) == (
                self.dr_params_other is Some
            ),
            is_present(self.full_update_flag, fields_present, FPF_BIT_DR_LIN_ACCELERATION) == (
                self.dr_params_entity_linear_acceleration is Some
            ),
            is_present(self.full_update_flag, fields_present, FPF_BIT_DR_ANG_VELOCITY) == (
                self.dr_params_entity_angular_velocity is Some
            ),
        ensures
            dead_reckoning_fields_spec(bits, at, self.full_update_flag, fields_present) == Ok::<
                (DeadReckoningFields, int),
                CdisError,
            >(
                (
                    (
                        self.dr_params_other,
                        self.dr_params_entity_linear_acceleration,
                        self.dr_params_entity_angular_velocity,
                    ),
                    at + self.dead_reckoning_bits().len(),
                ),
            ),
    {
        reveal(dead_reckoning_fields_spec);
        self.lemma_dead_reckoning_length();
        let p_0 = optional_bits(self.dr_params_other);
        let p_1 = optional_bits(self.dr_params_entity_linear_acceleration);
        let p_2 = optional_bits(self.dr_params_entity_angular_velocity);
        let w_0 = p_0;
        let w_1 = w_0 + p_1;
        let w_2 = w_1 + p_2;
        lemma_split_written(bits, at, w_1, p_2);
        lemma_split_written(bits, at, w_0, p_1);
        assert(when_present(
            self.dr_params_other is Some,
            dr_parameters_other_spec(bits, at),
            at,
        ) == Ok::<
            (Option<DrParametersOther>, int),
            ParseError,
        >((self.dr_params_other, at + w_0.len()))) by {
            match self.dr_params_other {
                Some(v) => v.lemma_round_trip(bits, at),
                None => {},
            }
        }
        assert(when_present(
            self.dr_params_entity_linear_acceleration is Some,
            linear_acceleration_spec(bits, at + w_0.len()),
            at + w_0.len(),
        ) == Ok::<
            (Option<LinearAcceleration>, int),
            ParseError,
        >((self.dr_params_entity_linear_acceleration, at + w_1.len()))) by {
            match self.dr_params_entity_linear_acceleration {
                Some(v) => v.lemma_round_trip(bits, at + w_0.len()),
                None => {},
            }
        }
        assert(when_present(
            self.dr_params_entity_angular_velocity is Some,
            angular_velocity_spec(bits, at + w_1.len()),
            at + w_1.len(),
        ) == Ok::<
            (Option<AngularVelocity>, int),
            ParseError,
        >((self.dr_params_entity_angular_velocity, at + w_2.len()))) by {
            match self.dr_params_entity_angular_velocity {
                Some(v) => v.lemma_round_trip(bits, at + w_1.len()),
                None => {},
            }
        }
    }

    fn dead_reckoning_is_valid(&self) -> (valid: bool)
        ensures
            valid == self.dead_reckoning_wf(),
    {
        optional_is_valid(&self.dr_params_other)
            && optional_is_valid(&self.dr_params_entity_linear_acceleration)
            && optional_is_valid(&self.dr_params_entity_angular_velocity)
    }

    fn dead_reckoning_length(&self) -> (length: usize)
        requires
            self.dead_reckoning_wf(),
        ensures
            length == self.dead_reckoning_bits().len(),
            length <= 210,
    {
        proof {
            self.lemma_dead_reckoning_length();
        }
        let length = optional_length(&self.dr_params_other);
        let length = length + optional_length(&self.dr_params_entity_linear_acceleration);
        let length = length + optional_length(&self.dr_params_entity_angular_velocity);
        length
    }

    fn serialize_dead_reckoning(&self, buf: &mut BitBuffer, cursor: usize) -> (next: usize)
        requires
            self.dead_reckoning_wf(),
            cursor + self.dead_reckoning_bits().len() <= MTU_BITS,
        ensures
            next == cursor + self.dead_reckoning_bits().len(),
            final(buf)@ == overwrite(old(buf)@, cursor as int, self.dead_reckoning_bits()),
    {
        proof {
            self.lemma_dead_reckoning_length();
        }
        let ghost start = cursor;
        let cursor = serialize_field_when_present(&self.dr_params_other, buf, cursor);
        let ghost written = optional_bits(self.dr_params_other);
        let cursor = serialize_field_when_present(
            &self.dr_params_entity_linear_acceleration,
            buf,
            cursor,
        );
        proof {
            lemma_overwrite_twice(
                old(buf)@,
                start as int,
                written,
                optional_bits(self.dr_params_entity_linear_acceleration),
            );
        }
        let ghost written = written + optional_bits(self.dr_params_entity_linear_acceleration);
        let cursor = serialize_field_when_present(
            &self.dr_params_entity_angular_velocity,
            buf,
            cursor,
        );
        proof {
            lemma_overwrite_twice(
                old(buf)@,
                start as int,
                written,
                optional_bits(self.dr_params_entity_angular_velocity),
            );
        }
        cursor
    }

    /// The bits of the fields that say what the entity is called and can do.
    pub open spec fn label_bits(self) -> Seq<bool> {
        optional_bits(self.entity_marking)
            + optional_bits(self.capabilities)
    }

    /// The fields that say what the entity is called and can do can be written.
    pub open spec fn label_wf(self) -> bool {
        &&& optional_wf(self.entity_marking)
        &&& optional_wf(self.capabilities)
    }

    /// The fields that say what the entity is called and can do are all there.
    pub open spec fn label_present(self) -> bool {
        &&& self.entity_marking is Some
        &&& self.capabilities is Some
    }

    pub proof fn lemma_label_length(self)
        requires
            self.label_wf(),
        ensures
            self.label_bits().len() <= 129,
            self.label_bits().len() == optional_bits(self.entity_marking).len()
                + optional_bits(self.capabilities).len(),
    {
        assert(optional_bits(self.entity_marking).len() <= 95) by {
            match self.entity_marking {
                Some(v) => v.lemma_wire_length(),
                None => {},
            }
        }
        assert(optional_bits(self.capabilities).len() <= 34) by {
            match self.capabilities {
                Some(v) => v.lemma_wire_length(),
                None => {},
            }
        }
    }

    /// The fields that say what the entity is called and can do read back as they were written.
    pub proof fn lemma_label_round_trip(self, fields_present: u16, bits: Seq<bool>, at: int)
        requires
            self.label_wf(),
            0 <= at,
            at + self.label_bits().len() <= bits.len(),
            bits.subrange(at, at + self.label_bits().len()) == self.label_bits(),
            is_present(self.full_update_flag, fields_present, FPF_BIT_MARKING) == (
                self.entity_marking is Some
            ),
            is_present(self.full_update_flag, fields_present, FPF_BIT_CAPABILITIES) == (
                self.capabilities is Some
            ),
        ensures
            label_fields_spec(bits, at, self.full_update_flag, fields_present) == Ok::<
                (LabelFields, int),
                CdisError,
            >(
                (
                    (self.entity_marking, self.capabilities),
                    at + self.label_bits().len(),
                ),
            ),
    {
        reveal(label_fields_spec);
        self.lemma_label_length();
        let p_0 = optional_bits(self.entity_marking);
        let p_1 = optional_bits(self.capabilities);
        let w_0 = p_0;
        let w_1 = w_0 + p_1;
        lemma_split_written(bits, at, w_0, p_1);
        assert(when_present(self.entity_marking is Some, entity_marking_spec(bits, at), at) == Ok::<
            (Option<EntityMarking>, int),
            ParseError,
        >((self.entity_marking, at + w_0.len()))) by {
            match self.entity_marking {
                Some(v) => v.lemma_round_trip(bits, at),
                None => {},
            }
        }
        assert(when_present(
            self.capabilities is Some,
            uvint32_spec(bits, at + w_0.len()),
            at + w_0.len(),
        ) == Ok::<
            (Option<UVINT32>, int),
            ParseError,
        >((self.capabilities, at + w_1.len()))) by {
            match self.capabilities {
                Some(v) => v.lemma_round_trip(bits, at + w_0.len()),
                None => {},
            }
        }
    }

    fn label_is_valid(&self) -> (valid: bool)
        ensures
            valid == self.label_wf(),
    {
        optional_is_valid(&self.entity_marking)
            && optional_is_valid(&self.capabilities)
    }

    fn label_length(&self) -> (length: usize)
        requires
            self.label_wf(),
        ensures
            length == self.label_bits().len(),
            length <= 129,
    {
        proof {
            self.lemma_label_length();
        }
        let length = optional_length(&self.entity_marking);
        let length = length + optional_length(&self.capabilities);
        length
    }

    fn serialize_label(&self, buf: &mut BitBuffer, cursor: usize) -> (next: usize)
        requires
            self.label_wf(),
            cursor + self.label_bits().len() <= MTU_BITS,
        ensures
            next == cursor + self.label_bits().len(),
            final(buf)@ == overwrite(old(buf)@, cursor as int, self.label_bits()),
    {
        proof {
            self.lemma_label_length();
        }
        let ghost start = cursor;
        let cursor = serialize_field_when_present(&self.entity_marking, buf, cursor);
        let ghost written = optional_bits(self.entity_marking);
        let cursor = serialize_field_when_present(&self.capabilities, buf, cursor);
        proof {
            lemma_overwrite_twice(
                old(buf)@,
                start as int,
                written,
                optional_bits(self.capabilities),
            );
        }
        cursor
    }

    /// Whether every value in the body can be written.
    pub fn has_valid_values(&self) -> (valid: bool)
        ensures
            valid == self.values_wf(),
    {
        self.entity_id.is_valid()
            && self.kind_is_valid()
            && self.kinematic_is_valid()
            && self.dead_reckoning_is_valid()
            && self.label_is_valid()
    }

    /// Computes the presence bits from the fields that are there.
    pub fn fields_present(&self) -> (mask: u16)
        ensures
            mask == self.presence_mask(),
    {
        let m_0: u16 = if self.force_id.is_some() {
            FPF_BIT_FORCE_ID
        } else {
            0
        };
        let m_1: u16 = if self.number_of_var_params.is_some() {
            FPF_BIT_VP
        } else {
            0
        };
        let m_2: u16 = if self.entity_type.is_some() {
            FPF_BIT_ENTITY_TYPE
        } else {
            0
        };
        let m_3: u16 = if self.alternate_entity_type.is_some() {
            FPF_BIT_ALT_ENTITY_TYPE
        } else {
            0
        };
        let m_4: u16 = if self.entity_linear_velocity.is_some() {
            FPF_BIT_LIN_VELOCITY
        } else {
            0
        };
        let m_5: u16 = if self.entity_location.is_some() {
            FPF_BIT_ENTITY_LOCATION
        } else {
            0
        };
        let m_6: u16 = if self.entity_orientation.is_some() {
            FPF_BIT_ENTITY_ORIENTATION
        } else {
            0
        };
        let m_7: u16 = if self.entity_appearance.is_some() {
            FPF_BIT_ENTITY_APPEARANCE
        } else {
            0
        };
        let m_8: u16 = if self.dr_params_other.is_some() {
            FPF_BIT_DR_OTHER
        } else {
            0
        };
        let m_9: u16 = if self.dr_params_entity_linear_acceleration.is_some() {
            FPF_BIT_DR_LIN_ACCELERATION
        } else {
            0
        };
        let m_10: u16 = if self.dr_params_entity_angular_velocity.is_some() {
            FPF_BIT_DR_ANG_VELOCITY
        } else {
            0
        };
        let m_11: u16 = if self.entity_marking.is_some() {
            FPF_BIT_MARKING
        } else {
            0
        };
        let m_12: u16 = if self.capabilities.is_some() {
            FPF_BIT_CAPABILITIES
        } else {
            0
        };
        m_0 | m_1 | m_2 | m_3 | m_4 | m_5 | m_6 | m_7 | m_8 | m_9 | m_10 | m_11 | m_12
    }

    /// The first optional field, in wire order, that is not there.
    pub fn missing_field(&self) -> (field: Option<Field>)
        ensures
            self.all_present() ==> field is None,
            !self.all_present() ==> field == Some(self.first_missing()),
    {
        if self.force_id.is_none() {
            return Some(Field::ForceId);
        }
        if self.number_of_var_params.is_none() {
            return Some(Field::NumberOfVariableParameters);
        }
        if self.entity_type.is_none() {
            return Some(Field::EntityType);
        }
        if self.alternate_entity_type.is_none() {
            return Some(Field::AlternateEntityType);
        }
        if self.entity_linear_velocity.is_none() {
            return Some(Field::LinearVelocity);
        }
        if self.entity_location.is_none() {
            return Some(Field::Location);
        }
        if self.entity_orientation.is_none() {
            return Some(Field::Orientation);
        }
        if self.entity_appearance.is_none() {
            return Some(Field::Appearance);
        }
        if self.dr_params_other.is_none() {
            return Some(Field::DrOther);
        }
        if self.dr_params_entity_linear_acceleration.is_none() {
            return Some(Field::DrLinearAcceleration);
        }
        if self.dr_params_entity_angular_velocity.is_none() {
            return Some(Field::DrAngularVelocity);
        }
        if self.entity_marking.is_none() {
            return Some(Field::Marking);
        }
        if self.capabilities.is_none() {
            return Some(Field::Capabilities);
        }
        None
    }

    /// The presence mask fits its 13 bits, and tests true for exactly the
    /// fields that are there.
    #[verifier::rlimit(60)]
    pub proof fn lemma_presence(self)
        ensures
            self.presence_mask() <= 0x1fff,
            mask_matches(self.presence_mask(), FPF_BIT_FORCE_ID) == (self.force_id is Some),
            mask_matches(self.presence_mask(), FPF_BIT_VP) == (self.number_of_var_params is Some),
            mask_matches(self.presence_mask(), FPF_BIT_ENTITY_TYPE) == (self.entity_type is Some),
            mask_matches(self.presence_mask(), FPF_BIT_ALT_ENTITY_TYPE) == (
                self.alternate_entity_type is Some
            ),
            mask_matches(self.presence_mask(), FPF_BIT_LIN_VELOCITY) == (
                self.entity_linear_velocity is Some
            ),
            mask_matches(self.presence_mask(), FPF_BIT_ENTITY_LOCATION) == (
                self.entity_location is Some
            ),
            mask_matches(self.presence_mask(), FPF_BIT_ENTITY_ORIENTATION) == (
                self.entity_orientation is Some
            ),
            mask_matches(self.presence_mask(), FPF_BIT_ENTITY_APPEARANCE) == (
                self.entity_appearance is Some
            ),
            mask_matches(self.presence_mask(), FPF_BIT_DR_OTHER) == (self.dr_params_other is Some),
            mask_matches(self.presence_mask(), FPF_BIT_DR_LIN_ACCELERATION) == (
                self.dr_params_entity_linear_acceleration is Some
            ),
            mask_matches(self.presence_mask(), FPF_BIT_DR_ANG_VELOCITY) == (
                self.dr_params_entity_angular_velocity is Some
            ),
            mask_matches(self.presence_mask(), FPF_BIT_MARKING) == (self.entity_marking is Some),
            mask_matches(self.presence_mask(), FPF_BIT_CAPABILITIES) == (self.capabilities is Some),
    {
        let all = self.presence_mask();
        assert(
            all <= 0x1fff
                && ((all & FPF_BIT_FORCE_ID != 0) == (self.force_id is Some))
                && ((all & FPF_BIT_VP != 0) == (self.number_of_var_params is Some))
                && ((all & FPF_BIT_ENTITY_TYPE != 0) == (self.entity_type is Some))
                && ((all & FPF_BIT_ALT_ENTITY_TYPE != 0) == (self.alternate_entity_type is Some))
                && ((all & FPF_BIT_LIN_VELOCITY != 0) == (self.entity_linear_velocity is Some))
                && ((all & FPF_BIT_ENTITY_LOCATION != 0) == (self.entity_location is Some))
                && ((all & FPF_BIT_ENTITY_ORIENTATION != 0) == (self.entity_orientation is Some))
                && ((all & FPF_BIT_ENTITY_APPEARANCE != 0) == (self.entity_appearance is Some))
                && ((all & FPF_BIT_DR_OTHER != 0) == (self.dr_params_other is Some))
                && (
                    (all & FPF_BIT_DR_LIN_ACCELERATION != 0) == (
                        self.dr_params_entity_linear_acceleration is Some
                    )
                )
                && (
                    (all & FPF_BIT_DR_ANG_VELOCITY != 0) == (
                        self.dr_params_entity_angular_velocity is Some
                    )
                )
                && ((all & FPF_BIT_MARKING != 0) == (self.entity_marking is Some))
                && ((all & FPF_BIT_CAPABILITIES != 0) == (self.capabilities is Some))
        ) by {
            lemma_mask_bits(
                mask_bit(self.force_id is Some, FPF_BIT_FORCE_ID),
                mask_bit(self.number_of_var_params is Some, FPF_BIT_VP),
                mask_bit(self.entity_type is Some, FPF_BIT_ENTITY_TYPE),
                mask_bit(self.alternate_entity_type is Some, FPF_BIT_ALT_ENTITY_TYPE),
                mask_bit(self.entity_linear_velocity is Some, FPF_BIT_LIN_VELOCITY),
                mask_bit(self.entity_location is Some, FPF_BIT_ENTITY_LOCATION),
                mask_bit(self.entity_orientation is Some, FPF_BIT_ENTITY_ORIENTATION),
                mask_bit(self.entity_appearance is Some, FPF_BIT_ENTITY_APPEARANCE),
                mask_bit(self.dr_params_other is Some, FPF_BIT_DR_OTHER),
                mask_bit(
                    self.dr_params_entity_linear_acceleration is Some,
                    FPF_BIT_DR_LIN_ACCELERATION,
                ),
                mask_bit(self.dr_params_entity_angular_velocity is Some, FPF_BIT_DR_ANG_VELOCITY),
                mask_bit(self.entity_marking is Some, FPF_BIT_MARKING),
                mask_bit(self.capabilities is Some, FPF_BIT_CAPABILITIES),
                all,
            );
        }
        lemma_mask_matches(all, FPF_BIT_FORCE_ID);
        lemma_mask_matches(all, FPF_BIT_VP);
        lemma_mask_matches(all, FPF_BIT_ENTITY_TYPE);
        lemma_mask_matches(all, FPF_BIT_ALT_ENTITY_TYPE);
        lemma_mask_matches(all, FPF_BIT_LIN_VELOCITY);
        lemma_mask_matches(all, FPF_BIT_ENTITY_LOCATION);
        lemma_mask_matches(all, FPF_BIT_ENTITY_ORIENTATION);
        lemma_mask_matches(all, FPF_BIT_ENTITY_APPEARANCE);
        lemma_mask_matches(all, FPF_BIT_DR_OTHER);
        lemma_mask_matches(all, FPF_BIT_DR_LIN_ACCELERATION);
        lemma_mask_matches(all, FPF_BIT_DR_ANG_VELOCITY);
        lemma_mask_matches(all, FPF_BIT_MARKING);
        lemma_mask_matches(all, FPF_BIT_CAPABILITIES);
    }

    /// How long a body is on the wire.
    pub proof fn lemma_wire_length(self)
        requires
            self.values_wf(),
        ensures
            self.wire_bits().len() <= 730,
            self.wire_bits().len() == 15 + self.entity_id.wire_bits().len()
                + self.kind_bits().len()
                    + self.kinematic_bits().len()
                    + self.dead_reckoning_bits().len()
                    + self.label_bits().len(),
    {
        lemma_bits_of_len(self.presence_mask() as nat, 13);
        lemma_bits_of_len(self.units.flag(), 1);
        lemma_bits_of_len(flag_of(self.full_update_flag), 1);
        self.entity_id.lemma_wire_length();
        self.lemma_kind_length();
        self.lemma_kinematic_length();
        self.lemma_dead_reckoning_length();
        self.lemma_label_length();
    }

    /// Encodes the body at `cursor`. A full update with a field missing is
    /// refused, and so is a body that would pass the end of the buffer;
    /// nothing is written then.
    pub fn encode(&self, buf: &mut BitBuffer, cursor: usize) -> (res: Result<usize, CdisError>)
        requires
            self.values_wf(),
        ensures
            match res {
                Ok(next) => {
                    &&& self.complete()
                    &&& next == cursor + self.wire_bits().len()
                    &&& next <= MTU_BITS
                    &&& final(buf)@ == overwrite(old(buf)@, cursor as int, self.wire_bits())
                },
                Err(e) => {
                    &&& final(buf)@ == old(buf)@
                    &&& if !self.complete() {
                        e == (CdisError::MissingRequiredField { field: self.first_missing() })
                    } else {
                        &&& e == CdisError::CapacityExceeded
                        &&& cursor + self.wire_bits().len() > MTU_BITS
                    }
                },
            },
    {
        if self.full_update_flag {
            match self.missing_field() {
                Some(field) => {
                    return Err(CdisError::MissingRequiredField { field });
                },
                None => {},
            }
        }
        let length = self.bit_length();
        if cursor > MTU_BITS || length > MTU_BITS - cursor {
            return Err(CdisError::CapacityExceeded);
        }
        Ok(self.serialize(buf, cursor))
    }

    /// A written body reads back as itself, and the reader stops where the
    /// writer did.
    pub proof fn lemma_round_trip(self, bits: Seq<bool>, at: int)
        requires
            self.wf(),
            0 <= at,
            at + self.wire_bits().len() <= bits.len(),
            bits.subrange(at, at + self.wire_bits().len()) == self.wire_bits(),
        ensures
            entity_state_body_spec(bits, at) == Ok::<(EntityState, int), CdisError>(
                (self, at + self.wire_bits().len()),
            ),
    {
        self.lemma_presence();
        self.lemma_wire_length();
        let header = self.header();
        let p_0 = header_bits(header);
        let p_1 = self.kind_bits();
        let p_2 = self.kinematic_bits();
        let p_3 = self.dead_reckoning_bits();
        let p_4 = self.label_bits();
        let w_0 = p_0;
        let w_1 = w_0 + p_1;
        let w_2 = w_1 + p_2;
        let w_3 = w_2 + p_3;
        let w_4 = w_3 + p_4;
        assert(w_4 == self.wire_bits());
        lemma_split_written(bits, at, w_3, p_4);
        lemma_split_written(bits, at, w_2, p_3);
        lemma_split_written(bits, at, w_1, p_2);
        lemma_split_written(bits, at, w_0, p_1);
        lemma_header_round_trip(header, bits, at);
        self.lemma_kind_round_trip(header.fields_present, bits, at + w_0.len());
        self.lemma_kinematic_round_trip(header.fields_present, bits, at + w_1.len());
        self.lemma_dead_reckoning_round_trip(header.fields_present, bits, at + w_2.len());
        self.lemma_label_round_trip(header.fields_present, bits, at + w_3.len());
    }
}

impl SerializeCdis for EntityState {
    /// Every value can be written, and a full update lacks no field.
    open spec fn wf(&self) -> bool {
        self.values_wf() && self.complete()
    }

    open spec fn wire_bits(&self) -> Seq<bool> {
        header_bits(self.header())
            + self.kind_bits()
            + self.kinematic_bits()
            + self.dead_reckoning_bits()
            + self.label_bits()
    }

    fn is_valid(&self) -> (valid: bool) {
        self.has_valid_values() && (!self.full_update_flag || self.missing_field().is_none())
    }

    fn bit_length(&self) -> (length: usize)
        ensures
            length <= 730,
    {
        proof {
            self.lemma_wire_length();
        }
        15
            + self.entity_id.bit_length()
            + self.kind_length()
            + self.kinematic_length()
            + self.dead_reckoning_length()
            + self.label_length()
    }

    fn serialize(&self, buf: &mut BitBuffer, cursor: usize) -> (next: usize) {
        proof {
            self.lemma_presence();
            self.lemma_wire_length();
        }
        let ghost start = cursor;
        let header = BodyHeader {
            fields_present: self.fields_present(),
            units: self.units,
            full_update_flag: self.full_update_flag,
            entity_id: self.entity_id,
        };
        let cursor = serialize_header(&header, buf, cursor);
        let ghost written = header_bits(header);
        let cursor = self.serialize_kind(buf, cursor);
        proof {
            lemma_overwrite_twice(old(buf)@, start as int, written, self.kind_bits());
        }
        let ghost written = written + self.kind_bits();
        let cursor = self.serialize_kinematic(buf, cursor);
        proof {
            lemma_overwrite_twice(old(buf)@, start as int, written, self.kinematic_bits());
        }
        let ghost written = written + self.kinematic_bits();
        let cursor = self.serialize_dead_reckoning(buf, cursor);
        proof {
            lemma_overwrite_twice(old(buf)@, start as int, written, self.dead_reckoning_bits());
        }
        let ghost written = written + self.dead_reckoning_bits();
        let cursor = self.serialize_label(buf, cursor);
        proof {
            lemma_overwrite_twice(old(buf)@, start as int, written, self.label_bits());
        }
        cursor
    }
}

/// The fields that say what the entity is, in wire order.
pub type KindFields = (Option<UVINT8>, Option<UVINT8>, Option<EntityType>, Option<EntityType>);

/// What parsing those fields gives, at `at`, under a header with these
/// flags.
#[verifier::opaque]
pub open spec fn kind_fields_spec(
    bits: Seq<bool>,
    at: int,
    full_update: bool,
    fields_present: u16,
) -> Result<(KindFields, int), CdisError> {
    match when_present(
        is_present(full_update, fields_present, FPF_BIT_FORCE_ID),
        uvint8_spec(bits, at),
        at,
    ) {
        Err(cause) => Err(CdisError::MalformedBody { field: Field::ForceId, cause }),
        Ok((force_id, at)) => {
            match when_present(
                is_present(full_update, fields_present, FPF_BIT_VP),
                uvint8_spec(bits, at),
                at,
            ) {
                Err(cause) => Err(
                    CdisError::MalformedBody { field: Field::NumberOfVariableParameters, cause },
                ),
                Ok((number_of_var_params, at)) => {
                    match when_present(
                        is_present(full_update, fields_present, FPF_BIT_ENTITY_TYPE),
                        entity_type_spec(bits, at),
                        at,
                    ) {
                        Err(cause) => Err(
                            CdisError::MalformedBody { field: Field::EntityType, cause },
                        ),
                        Ok((entity_type, at)) => {
                            match when_present(
                                is_present(full_update, fields_present, FPF_BIT_ALT_ENTITY_TYPE),
                                entity_type_spec(bits, at),
                                at,
                            ) {
                                Err(cause) => Err(
                                    CdisError::MalformedBody {
                                        field: Field::AlternateEntityType,
                                        cause,
                                    },
                                ),
                                Ok((alternate_entity_type, at)) => {
                                    Ok(
                                        (
                                            (
                                                force_id,
                                                number_of_var_params,
                                                entity_type,
                                                alternate_entity_type,
                                            ),
                                            at,
                                        ),
                                    )
                                },
                            }
                        },
                    }
                },
            }
        },
    }
}

fn parse_kind_fields<'a>(
    input: BitInput<'a>,
    full_update_flag: bool,
    fields_present: u16,
) -> (res: Result<(BitInput<'a>, KindFields), CdisError>)
    requires
        input.0@.len() <= MTU_BYTES,
    ensures
        match kind_fields_spec(
            input_bits(input),
            input.1 as int,
            full_update_flag,
            fields_present,
        ) {
            Ok((fields, next)) => {
                &&& res == Ok::<(BitInput<'a>, KindFields), CdisError>(
                    ((input.0, next as usize), fields),
                )
                &&& input.1 <= next
                &&& next <= input_bits(input).len() || next == input.1
                &&& optional_wf(fields.0)
                &&& optional_wf(fields.1)
                &&& optional_wf(fields.2)
                &&& optional_wf(fields.3)
                &&& (fields.0 is Some) == is_present(
                    full_update_flag,
                    fields_present,
                    FPF_BIT_FORCE_ID,
                )
                &&& (fields.1 is Some) == is_present(full_update_flag, fields_present, FPF_BIT_VP)
                &&& (fields.2 is Some) == is_present(
                    full_update_flag,
                    fields_present,
                    FPF_BIT_ENTITY_TYPE,
                )
                &&& (fields.3 is Some) == is_present(
                    full_update_flag,
                    fields_present,
                    FPF_BIT_ALT_ENTITY_TYPE,
                )
            },
            Err(e) => res == Err::<(BitInput<'a>, KindFields), CdisError>(e),
        },
{
    proof {
        reveal(kind_fields_spec);
    }
    let (input, force_id) = match parse_field_when_present(
        full_update_flag,
        fields_present,
        FPF_BIT_FORCE_ID,
        uvint8,
    )(input) {
        Ok(r) => r,
        Err(cause) => {
            return Err(CdisError::MalformedBody { field: Field::ForceId, cause });
        },
    };
    let (input, number_of_var_params) = match parse_field_when_present(
        full_update_flag,
        fields_present,
        FPF_BIT_VP,
        uvint8,
    )(input) {
        Ok(r) => r,
        Err(cause) => {
            return Err(
                CdisError::MalformedBody { field: Field::NumberOfVariableParameters, cause },
            );
        },
    };
    let (input, entity_type) = match parse_field_when_present(
        full_update_flag,
        fields_present,
        FPF_BIT_ENTITY_TYPE,
        crate::records::entity_type,
    )(input) {
        Ok(r) => r,
        Err(cause) => {
            return Err(CdisError::MalformedBody { field: Field::EntityType, cause });
        },
    };
    let (input, alternate_entity_type) = match parse_field_when_present(
        full_update_flag,
        fields_present,
        FPF_BIT_ALT_ENTITY_TYPE,
        crate::records::entity_type,
    )(input) {
        Ok(r) => r,
        Err(cause) => {
            return Err(CdisError::MalformedBody { field: Field::AlternateEntityType, cause });
        },
    };
    Ok((input, (force_id, number_of_var_params, entity_type, alternate_entity_type)))
}

/// The fields that say where the entity is and how it looks, in wire order.
pub type KinematicFields = (
    Option<LinearVelocity>,
    Option<WorldCoordinates>,
    Option<Orientation>,
    Option<EntityAppearance>,
);

/// What parsing those fields gives, at `at`, under a header with these
/// flags.
#[verifier::opaque]
pub open spec fn kinematic_fields_spec(
    bits: Seq<bool>,
    at: int,
    full_update: bool,
    fields_present: u16,
) -> Result<(KinematicFields, int), CdisError> {
    match when_present(
        is_present(full_update, fields_present, FPF_BIT_LIN_VELOCITY),
        linear_velocity_spec(bits, at),
        at,
    ) {
        Err(cause) => Err(CdisError::MalformedBody { field: Field::LinearVelocity, cause }),
        Ok((entity_linear_velocity, at)) => {
            match when_present(
                is_present(full_update, fields_present, FPF_BIT_ENTITY_LOCATION),
                world_coordinates_spec(bits, at),
                at,
            ) {
                Err(cause) => Err(CdisError::MalformedBody { field: Field::Location, cause }),
                Ok((entity_location, at)) => {
                    match when_present(
                        is_present(full_update, fields_present, FPF_BIT_ENTITY_ORIENTATION),
                        orientation_spec(bits, at),
                        at,
                    ) {
                        Err(cause) => Err(
                            CdisError::MalformedBody { field: Field::Orientation, cause },
                        ),
                        Ok((entity_orientation, at)) => {
                            match when_present(
                                is_present(full_update, fields_present, FPF_BIT_ENTITY_APPEARANCE),
                                entity_appearance_spec(bits, at),
                                at,
                            ) {
                                Err(cause) => Err(
                                    CdisError::MalformedBody { field: Field::Appearance, cause },
                                ),
                                Ok((entity_appearance, at)) => {
                                    Ok(
                                        (
                                            (
                                                entity_linear_velocity,
                                                entity_location,
                                                entity_orientation,
                                                entity_appearance,
                                            ),
                                            at,
                                        ),
                                    )
                                },
                            }
                        },
                    }
                },
            }
        },
    }
}

fn parse_kinematic_fields<'a>(
    input: BitInput<'a>,
    full_update_flag: bool,
    fields_present: u16,
) -> (res: Result<(BitInput<'a>, KinematicFields), CdisError>)
    requires
        input.0@.len() <= MTU_BYTES,
    ensures
        match kinematic_fields_spec(
            input_bits(input),
            input.1 as int,
            full_update_flag,
            fields_present,
        ) {
            Ok((fields, next)) => {
                &&& res == Ok::<(BitInput<'a>, KinematicFields), CdisError>(
                    ((input.0, next as usize), fields),
                )
                &&& input.1 <= next
                &&& next <= input_bits(input).len() || next == input.1
                &&& optional_wf(fields.0)
                &&& optional_wf(fields.1)
                &&& optional_wf(fields.2)
                &&& optional_wf(fields.3)
                &&& (fields.0 is Some) == is_present(
                    full_update_flag,
                    fields_present,
                    FPF_BIT_LIN_VELOCITY,
                )
                &&& (fields.1 is Some) == is_present(
                    full_update_flag,
                    fields_present,
                    FPF_BIT_ENTITY_LOCATION,
                )
                &&& (fields.2 is Some) == is_present(
                    full_update_flag,
                    fields_present,
                    FPF_BIT_ENTITY_ORIENTATION,
                )
                &&& (fields.3 is Some) == is_present(
                    full_update_flag,
                    fields_present,
                    FPF_BIT_ENTITY_APPEARANCE,
                )
            },
            Err(e) => res == Err::<(BitInput<'a>, KinematicFields), CdisError>(e),
        },
{
    proof {
        reveal(kinematic_fields_spec);
    }
    let (input, entity_linear_velocity) = match parse_field_when_present(
        full_update_flag,
        fields_present,
        FPF_BIT_LIN_VELOCITY,
        linear_velocity,
    )(input) {
        Ok(r) => r,
        Err(cause) => {
            return Err(CdisError::MalformedBody { field: Field::LinearVelocity, cause });
        },
    };
    let (input, entity_location) = match parse_field_when_present(
        full_update_flag,
        fields_present,
        FPF_BIT_ENTITY_LOCATION,
        world_coordinates,
    )(input) {
        Ok(r) => r,
        Err(cause) => {
            return Err(CdisError::MalformedBody { field: Field::Location, cause });
        },
    };
    let (input, entity_orientation) = match parse_field_when_present(
        full_update_flag,
        fields_present,
        FPF_BIT_ENTITY_ORIENTATION,
        orientation,
    )(input) {
        Ok(r) => r,
        Err(cause) => {
            return Err(CdisError::MalformedBody { field: Field::Orientation, cause });
        },
    };
    let (input, entity_appearance) = match parse_field_when_present(
        full_update_flag,
        fields_present,
        FPF_BIT_ENTITY_APPEARANCE,
        entity_appearance,
    )(input) {
        Ok(r) => r,
        Err(cause) => {
            return Err(CdisError::MalformedBody { field: Field::Appearance, cause });
        },
    };
    Ok((input, (entity_linear_velocity, entity_location, entity_orientation, entity_appearance)))
}

/// The fields that say how the entity will move, in wire order.
pub type DeadReckoningFields = (
    Option<DrParametersOther>,
    Option<LinearAcceleration>,
    Option<AngularVelocity>,
);

/// What parsing those fields gives, at `at`, under a header with these
/// flags.
#[verifier::opaque]
pub open spec fn dead_reckoning_fields_spec(
    bits: Seq<bool>,
    at: int,
    full_update: bool,
    fields_present: u16,
) -> Result<(DeadReckoningFields, int), CdisError> {
    match when_present(
        is_present(full_update, fields_present, FPF_BIT_DR_OTHER),
        dr_parameters_other_spec(bits, at),
        at,
    ) {
        Err(cause) => Err(CdisError::MalformedBody { field: Field::DrOther, cause }),
        Ok((dr_params_other, at)) => {
            match when_present(
                is_present(full_update, fields_present, FPF_BIT_DR_LIN_ACCELERATION),
                linear_acceleration_spec(bits, at),
                at,
            ) {
                Err(cause) => Err(
                    CdisError::MalformedBody { field: Field::DrLinearAcceleration, cause },
                ),
                Ok((dr_params_entity_linear_acceleration, at)) => {
                    match when_present(
                        is_present(full_update, fields_present, FPF_BIT_DR_ANG_VELOCITY),
                        angular_velocity_spec(bits, at),
                        at,
                    ) {
                        Err(cause) => Err(
                            CdisError::MalformedBody { field: Field::DrAngularVelocity, cause },
                        ),
                        Ok((dr_params_entity_angular_velocity, at)) => {
                            Ok(
                                (
                                    (
                                        dr_params_other,
                                        dr_params_entity_linear_acceleration,
                                        dr_params_entity_angular_velocity,
                                    ),
                                    at,
                                ),
                            )
                        },
                    }
                },
            }
        },
    }
}

fn parse_dead_reckoning_fields<'a>(
    input: BitInput<'a>,
    full_update_flag: bool,
    fields_present: u16,
) -> (res: Result<(BitInput<'a>, DeadReckoningFields), CdisError>)
    requires
        input.0@.len() <= MTU_BYTES,
    ensures
        match dead_reckoning_fields_spec(
            input_bits(input),
            input.1 as int,
            full_update_flag,
            fields_present,
        ) {
            Ok((fields, next)) => {
                &&& res == Ok::<(BitInput<'a>, DeadReckoningFields), CdisError>(
                    ((input.0, next as usize), fields),
                )
                &&& input.1 <= next
                &&& next <= input_bits(input).len() || next == input.1
                &&& optional_wf(fields.0)
                &&& optional_wf(fields.1)
                &&& optional_wf(fields.2)
                &&& (fields.0 is Some) == is_present(
                    full_update_flag,
                    fields_present,
                    FPF_BIT_DR_OTHER,
                )
                &&& (fields.1 is Some) == is_present(
                    full_update_flag,
                    fields_present,
                    FPF_BIT_DR_LIN_ACCELERATION,
                )
                &&& (fields.2 is Some) == is_present(
                    full_update_flag,
                    fields_present,
                    FPF_BIT_DR_ANG_VELOCITY,
                )
            },
            Err(e) => res == Err::<(BitInput<'a>, DeadReckoningFields), CdisError>(e),
        },
{
    proof {
        reveal(dead_reckoning_fields_spec);
    }
    let (input, dr_params_other) = match parse_field_when_present(
        full_update_flag,
        fields_present,
        FPF_BIT_DR_OTHER,
        dr_parameters_other,
    )(input) {
        Ok(r) => r,
        Err(cause) => {
            return Err(CdisError::MalformedBody { field: Field::DrOther, cause });
        },
    };
    let (input, dr_params_entity_linear_acceleration) = match parse_field_when_present(
        full_update_flag,
        fields_present,
        FPF_BIT_DR_LIN_ACCELERATION,
        linear_acceleration,
    )(input) {
        Ok(r) => r,
        Err(cause) => {
            return Err(CdisError::MalformedBody { field: Field::DrLinearAcceleration, cause });
        },
    };
    let (input, dr_params_entity_angular_velocity) = match parse_field_when_present(
        full_update_flag,
        fields_present,
        FPF_BIT_DR_ANG_VELOCITY,
        angular_velocity,
    )(input) {
        Ok(r) => r,
        Err(cause) => {
            return Err(CdisError::MalformedBody { field: Field::DrAngularVelocity, cause });
        },
    };
    Ok(
        (
            input,
            (
                dr_params_other,
                dr_params_entity_linear_acceleration,
                dr_params_entity_angular_velocity,
            ),
        ),
    )
}

/// The fields that say what the entity is called and can do, in wire order.
pub type LabelFields = (Option<EntityMarking>, Option<UVINT32>);

/// What parsing those fields gives, at `at`, under a header with these
/// flags.
#[verifier::opaque]
pub open spec fn label_fields_spec(
    bits: Seq<bool>,
    at: int,
    full_update: bool,
    fields_present: u16,
) -> Result<(LabelFields, int), CdisError> {
    match when_present(
        is_present(full_update, fields_present, FPF_BIT_MARKING),
        entity_marking_spec(bits, at),
        at,
    ) {
        Err(cause) => Err(CdisError::MalformedBody { field: Field::Marking, cause }),
        Ok((entity_marking, at)) => {
            match when_present(
                is_present(full_update, fields_present, FPF_BIT_CAPABILITIES),
                uvint32_spec(bits, at),
                at,
            ) {
                Err(cause) => Err(CdisError::MalformedBody { field: Field::Capabilities, cause }),
                Ok((capabilities, at)) => {
                    Ok(((entity_marking, capabilities), at))
                },
            }
        },
    }
}

fn parse_label_fields<'a>(
    input: BitInput<'a>,
    full_update_flag: bool,
    fields_present: u16,
) -> (res: Result<(BitInput<'a>, LabelFields), CdisError>)
    requires
        input.0@.len() <= MTU_BYTES,
    ensures
        match label_fields_spec(
            input_bits(input),
            input.1 as int,
            full_update_flag,
            fields_present,
        ) {
            Ok((fields, next)) => {
                &&& res == Ok::<(BitInput<'a>, LabelFields), CdisError>(
                    ((input.0, next as usize), fields),
                )
                &&& input.1 <= next
                &&& next <= input_bits(input).len() || next == input.1
                &&& optional_wf(fields.0)
                &&& optional_wf(fields.1)
                &&& (fields.0 is Some) == is_present(
                    full_update_flag,
                    fields_present,
                    FPF_BIT_MARKING,
                )
                &&& (fields.1 is Some) == is_present(
                    full_update_flag,
                    fields_present,
                    FPF_BIT_CAPABILITIES,
                )
            },
            Err(e) => res == Err::<(BitInput<'a>, LabelFields), CdisError>(e),
        },
{
    proof {
        reveal(label_fields_spec);
    }
    let (input, entity_marking) = match parse_field_when_present(
        full_update_flag,
        fields_present,
        FPF_BIT_MARKING,
        crate::marking::entity_marking,
    )(input) {
        Ok(r) => r,
        Err(cause) => {
            return Err(CdisError::MalformedBody { field: Field::Marking, cause });
        },
    };
    let (input, capabilities) = match parse_field_when_present(
        full_update_flag,
        fields_present,
        FPF_BIT_CAPABILITIES,
        uvint32,
    )(input) {
        Ok(r) => r,
        Err(cause) => {
            return Err(CdisError::MalformedBody { field: Field::Capabilities, cause });
        },
    };
    Ok((input, (entity_marking, capabilities)))
}

/// What parsing an entity state body at `at` gives. The header is read
/// first; each optional field is read when the header says that it is
/// there. The first field that fails to parse fails the body.
pub open spec fn entity_state_body_spec(bits: Seq<bool>, at: int) -> Result<
    (EntityState, int),
    CdisError,
> {
    match header_spec(bits, at) {
        Err(e) => Err(e),
        Ok((header, at)) => {
            match kind_fields_spec(bits, at, header.full_update_flag, header.fields_present) {
                Err(e) => Err(e),
                Ok((kind, at)) => {
                    match kinematic_fields_spec(
                        bits,
                        at,
                        header.full_update_flag,
                        header.fields_present,
                    ) {
                        Err(e) => Err(e),
                        Ok((kinematic, at)) => {
                            match dead_reckoning_fields_spec(
                                bits,
                                at,
                                header.full_update_flag,
                                header.fields_present,
                            ) {
                                Err(e) => Err(e),
                                Ok((dead_reckoning, at)) => {
                                    match label_fields_spec(
                                        bits,
                                        at,
                                        header.full_update_flag,
                                        header.fields_present,
                                    ) {
                                        Err(e) => Err(e),
                                        Ok((label, at)) => {
                                            Ok(
                                                (
                                                    EntityState {
                                                        units: header.units,
                                                        full_update_flag: header.full_update_flag,
                                                        entity_id: header.entity_id,
                                                        force_id: kind.0,
                                                        number_of_var_params: kind.1,
                                                        entity_type: kind.2,
                                                        alternate_entity_type: kind.3,
                                                        entity_linear_velocity: kinematic.0,
                                                        entity_location: kinematic.1,
                                                        entity_orientation: kinematic.2,
                                                        entity_appearance: kinematic.3,
                                                        dr_params_other: dead_reckoning.0,
                                                        dr_params_entity_linear_acceleration: dead_reckoning.1,
                                                        dr_params_entity_angular_velocity: dead_reckoning.2,
                                                        entity_marking: label.0,
                                                        capabilities: label.1,
                                                    },
                                                    at,
                                                ),
                                            )
                                        },
                                    }
                                },
                            }
                        },
                    }
                },
            }
        },
    }
}

/// Parses an entity state body.
pub fn entity_state_body<'a>(input: BitInput<'a>) -> (res: Result<
    (BitInput<'a>, EntityState),
    CdisError,
>)
    requires
        input.0@.len() <= MTU_BYTES,
    ensures
        match entity_state_body_spec(input_bits(input), input.1 as int) {
            Ok((body, next)) => res == Ok::<(BitInput<'a>, EntityState), CdisError>(
                ((input.0, next as usize), body),
            ) && body.wf() && input.1 <= next <= input_bits(input).len(),
            Err(e) => res == Err::<(BitInput<'a>, EntityState), CdisError>(e),
        },
{
    let (input, header) = match parse_header(input) {
        Ok(r) => r,
        Err(e) => { return Err(e); },
    };
    let (input, kind) = match parse_kind_fields(
        input,
        header.full_update_flag,
        header.fields_present,
    ) {
        Ok(r) => r,
        Err(e) => { return Err(e); },
    };
    let (input, kinematic) = match parse_kinematic_fields(
        input,
        header.full_update_flag,
        header.fields_present,
    ) {
        Ok(r) => r,
        Err(e) => { return Err(e); },
    };
    let (input, dead_reckoning) = match parse_dead_reckoning_fields(
        input,
        header.full_update_flag,
        header.fields_present,
    ) {
        Ok(r) => r,
        Err(e) => { return Err(e); },
    };
    let (input, label) = match parse_label_fields(
        input,
        header.full_update_flag,
        header.fields_present,
    ) {
        Ok(r) => r,
        Err(e) => { return Err(e); },
    };
    Ok(
        (
            input,
            EntityState {
                units: header.units,
                full_update_flag: header.full_update_flag,
                entity_id: header.entity_id,
                force_id: kind.0,
                number_of_var_params: kind.1,
                entity_type: kind.2,
                alternate_entity_type: kind.3,
                entity_linear_velocity: kinematic.0,
                entity_location: kinematic.1,
                entity_orientation: kinematic.2,
                entity_appearance: kinematic.3,
                dr_params_other: dead_reckoning.0,
                dr_params_entity_linear_acceleration: dead_reckoning.1,
                dr_params_entity_angular_velocity: dead_reckoning.2,
                entity_marking: label.0,
                capabilities: label.1,
            },
        ),
    )
}

/// In a body that parses, a full update has every optional field, and any
/// other body has exactly the fields whose presence bits are set.
pub proof fn lemma_presence_of_parsed(bits: Seq<bool>, at: int)
    requires
        0 <= at,
    ensures
        match entity_state_body_spec(bits, at) {
            Ok((body, _)) => {
                let fields = value_of(bits.subrange(at, at + 13));
                &&& body.full_update_flag == bits[at + 14]
                &&& body.presence_follows(body.full_update_flag, fields as u16)
            },
            Err(_) => true,
        },
{
    reveal(header_spec);
    reveal(kind_fields_spec);
    reveal(kinematic_fields_spec);
    reveal(dead_reckoning_fields_spec);
    reveal(label_fields_spec);
    lemma2_to64();
    if at + 15 <= bits.len() {
        lemma_value_of_bound(bits.subrange(at, at + 13));
        lemma_value_of_bound(bits.subrange(at + 14, at + 15));
        let one = bits.subrange(at + 14, at + 15);
        assert(one == seq![bits[at + 14]]);
        lemma_one_bit(0);
    }
}

/// Decodes the body that a datagram holds from its first bit on, and tells
/// how many bits the body took. A datagram longer than the buffer's
/// capacity is refused.
pub fn decode_entity_state(datagram: &[u8]) -> (res: Result<(EntityState, usize), CdisError>)
    ensures
        datagram@.len() > MTU_BYTES ==> res == Err::<(EntityState, usize), CdisError>(
            CdisError::CapacityExceeded,
        ),
        datagram@.len() <= MTU_BYTES ==> match entity_state_body_spec(bytes_bits(datagram@), 0) {
            Ok((body, next)) => res == Ok::<(EntityState, usize), CdisError>((body, next as usize))
                && body.wf() && next <= 8 * datagram@.len(),
            Err(e) => res == Err::<(EntityState, usize), CdisError>(e),
        },
{
    if datagram.len() > MTU_BYTES {
        return Err(CdisError::CapacityExceeded);
    }
    match entity_state_body((datagram, 0)) {
        Ok((rest, body)) => Ok((body, rest.1)),
        Err(e) => Err(e),
    }
}

/// Encodes the body at the start of a fresh buffer, and tells how many
/// bits it took.
pub fn encode_entity_state(body: &EntityState) -> (res: Result<(BitBuffer, usize), CdisError>)
    requires
        body.values_wf(),
    ensures
        match res {
            Ok((buf, length)) => {
                &&& body.complete()
                &&& length == body.wire_bits().len()
                &&& buf@ == overwrite(
                    Seq::new(MTU_BITS as nat, |i: int| false),
                    0,
                    body.wire_bits(),
                )
            },
            Err(e) => !body.complete() && e == (CdisError::MissingRequiredField {
                field: body.first_missing(),
            }),
        },
{
    proof {
        body.lemma_wire_length();
    }
    let mut buf = BitBuffer::new();
    match body.encode(&mut buf, 0) {
        Ok(length) => Ok((buf, length)),
        Err(e) => Err(e),
    }
}

/// A body that was encoded into a fresh buffer decodes from the buffer's
/// bytes as itself, in as many bits as were written.
pub proof fn lemma_encode_then_decode(body: EntityState, bytes: Seq<u8>)
    requires
        body.wf(),
        bytes_bits(bytes) == overwrite(
            Seq::new(MTU_BITS as nat, |i: int| false),
            0,
            body.wire_bits(),
        ),
    ensures
        entity_state_body_spec(bytes_bits(bytes), 0) == Ok::<(EntityState, int), CdisError>(
            (body, body.wire_bits().len() as int),
        ),
{
    body.lemma_wire_length();
    lemma_overwrite_len(Seq::new(MTU_BITS as nat, |i: int| false), 0, body.wire_bits());
    body.lemma_round_trip(bytes_bits(bytes), 0);
}

} // verus!
