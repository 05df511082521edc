//! The uncompressed detonation PDU: a plain record, with the lengths and
//! parties that other layers ask it for.
//!
//! Floating-point quantities are held as their IEEE 754 bit patterns.

use vstd::prelude::*;

verus! {

/// Length in bytes of a detonation body without variable parameters.
pub const BASE_DETONATION_BODY_LENGTH: u16 = 104;

/// Length in bytes of one variable parameter record.
pub const VARIABLE_PARAMETER_RECORD_LENGTH: u16 = 16;

/// The kinds of PDU that this crate names.
#[derive(Clone, Copy, Debug, PartialEq, Eq, Structural)]
pub enum PduType {
    Other,
    EntityState,
    Fire,
    Detonation,
}

#[derive(Clone, Copy, Debug, PartialEq, Eq, Structural)]
pub struct SimulationAddress {
    pub site_id: u16,
    pub application_id: u16,
}

#[derive(Clone, Copy, Debug, PartialEq, Eq, Structural)]
pub struct EntityId {
    pub simulation_address: SimulationAddress,
    pub entity_id: u16,
}

#[derive(Clone, Copy, Debug, PartialEq, Eq, Structural)]
pub struct EventId {
    pub simulation_address: SimulationAddress,
    pub event_id: u16,
}

/// Three single-precision components, each as its bit pattern.
#[derive(Clone, Copy, Debug, PartialEq, Eq, Structural)]
pub struct VectorF32 {
    pub first_vector_component: u32,
    pub second_vector_component: u32,
    pub third_vector_component: u32,
}

/// World coordinates in double precision, each as its bit pattern.
#[derive(Clone, Copy, Debug, PartialEq, Eq, Structural)]
pub struct Location {
    pub x_coordinate: u64,
    pub y_coordinate: u64,
    pub z_coordinate: u64,
}

#[derive(Clone, Copy, Debug, PartialEq, Eq, Structural)]
pub struct EntityType {
    pub kind: u8,
    pub domain: u8,
    pub country: u16,
    pub category: u8,
    pub subcategory: u8,
    pub specific: u8,
    pub extra: u8,
}

#[derive(Clone, Copy, Debug, PartialEq, Eq, Structural)]
pub struct MunitionDescriptor {
    pub warhead: u16,
    pub fuse: u16,
    pub quantity: u16,
    pub rate: u16,
}

/// The code of an explosive material.
#[derive(Clone, Copy, Debug, PartialEq, Eq, Structural)]
pub struct ExplosiveMaterialCategories {
    pub code: u16,
}

/// The code of a detonation's outcome.
#[derive(Clone, Copy, Debug, PartialEq, Eq, Structural)]
pub struct DetonationResult {
    pub code: u8,
}

/// One variable parameter record: its type and the 15 bytes after it.
#[derive(Clone, Copy, Debug, PartialEq, Eq)]
pub struct VariableParameter {
    pub record_type: u8,
    pub fields: [u8; 15],
}

/// What went off.
#[derive(Clone, Copy, Debug, PartialEq, Eq, Structural)]
pub enum DescriptorRecord {
    Munition { entity_type: EntityType, munition: MunitionDescriptor },
    Expendable { entity_type: EntityType },
    /// `explosive_force` is the bit pattern of a single-precision number.
    Explosion {
        entity_type: EntityType,
        explosive_material: ExplosiveMaterialCategories,
        explosive_force: u32,
    },
}

impl DescriptorRecord {
    pub fn new_munition(entity_type: EntityType, munition: MunitionDescriptor) -> (record:
        DescriptorRecord)
        ensures
            record == (DescriptorRecord::Munition { entity_type, munition }),
    {
        DescriptorRecord::Munition { entity_type, munition }
    }

    pub fn new_expendable(entity_type: EntityType) -> (record: DescriptorRecord)
        ensures
            record == (DescriptorRecord::Expendable { entity_type }),
    {
        DescriptorRecord::Expendable { entity_type }
    }

    pub fn new_explosion(
        entity_type: EntityType,
        explosive_material: ExplosiveMaterialCategories,
        explosive_force: u32,
    ) -> (record: DescriptorRecord)
        ensures
            record == (DescriptorRecord::Explosion {
                entity_type,
                explosive_material,
                explosive_force,
            }),
    {
        DescriptorRecord::Explosion { entity_type, explosive_material, explosive_force }
    }
}

/// What a PDU body tells about itself.
pub trait BodyInfo {
    /// The body's length in bytes.
    spec fn length_in_bytes(&self) -> nat;

    /// The kind of PDU that the body belongs to.
    spec fn kind(&self) -> PduType;

    fn body_length(&self) -> (length: u16)
        requires
            self.length_in_bytes() <= u16::MAX,
        ensures
            length == self.length_in_bytes(),
    ;

    fn body_type(&self) -> (pdu_type: PduType)
        ensures
            pdu_type == self.kind(),
    ;
}

/// The two parties of an interaction between entities.
pub trait Interaction {
    spec fn originating_entity(&self) -> Option<EntityId>;

    spec fn receiving_entity(&self) -> Option<EntityId>;

    fn originator(&self) -> (entity: Option<&EntityId>)
        ensures
            match entity {
                Some(id) => self.originating_entity() == Some(*id),
                None => self.originating_entity() is None,
            },
    ;

    fn receiver(&self) -> (entity: Option<&EntityId>)
        ensures
            match entity {
                Some(id) => self.receiving_entity() == Some(*id),
                None => self.receiving_entity() is None,
            },
    ;
}

#[derive(Clone, Debug, PartialEq)]
pub struct Detonation {
    pub source_entity_id: EntityId,
    pub target_entity_id: EntityId,
    pub exploding_entity_id: EntityId,
    pub event_id: EventId,
    pub velocity: VectorF32,
    pub location_in_world_coordinates: Location,
    pub descriptor: DescriptorRecord,
    pub location_in_entity_coordinates: VectorF32,
    pub detonation_result: DetonationResult,
    pub variable_parameters: Vec<VariableParameter>,
}

impl Detonation {
    /// `self` with `descriptor` in place of its own.
    pub open spec fn replacing_descriptor(self, descriptor: DescriptorRecord) -> Detonation {
        Detonation { descriptor, ..self }
    }

    pub fn with_descriptor(self, descriptor: DescriptorRecord) -> (detonation: Detonation)
        ensures
            detonation == self.replacing_descriptor(descriptor),
    {
        let mut detonation = self;
        detonation.descriptor = descriptor;
        detonation
    }

    pub fn with_munition_descriptor(
        self,
        entity_type: EntityType,
        munition: MunitionDescriptor,
    ) -> (detonation: Detonation)
        ensures
            detonation == self.replacing_descriptor(
                DescriptorRecord::Munition { entity_type, munition },
            ),
    {
        let mut detonation = self;
        detonation.descriptor = DescriptorRecord::new_munition(entity_type, munition);
        detonation
    }

    pub fn with_expendable_descriptor(self, entity_type: EntityType) -> (detonation:
        Detonation)
        ensures
            detonation == self.replacing_descriptor(DescriptorRecord::Expendable { entity_type }),
    {
        let mut detonation = self;
        detonation.descriptor = DescriptorRecord::Expendable { entity_type };
        detonation
    }

    /// `explosive_force` is the bit pattern of a single-precision number.
    pub fn with_explosion_descriptor(
        self,
        entity_type: EntityType,
        explosive_material: ExplosiveMaterialCategories,
        explosive_force: u32,
    ) -> (detonation: Detonation)
        ensures
            detonation == self.replacing_descriptor(
                DescriptorRecord::Explosion { entity_type, explosive_material, explosive_force },
            ),
    {
        let mut detonation = self;
        detonation.descriptor = DescriptorRecord::new_explosion(
            entity_type,
            explosive_material,
            explosive_force,
        );
        detonation
    }
}

impl BodyInfo for Detonation {
    /// The fixed part, and sixteen bytes for each variable parameter.
    open spec fn length_in_bytes(&self) -> nat {
        (104 + 16 * self.variable_parameters@.len()) as nat
    }

    open spec fn kind(&self) -> PduType {
        PduType::Detonation
    }

    fn body_length(&self) -> (length: u16) {
        BASE_DETONATION_BODY_LENGTH + (VARIABLE_PARAMETER_RECORD_LENGTH * (
        self.variable_parameters.len() as u16))
    }

    fn body_type(&self) -> (pdu_type: PduType) {
        PduType::Detonation
    }
}

impl Interaction for Detonation {
    open spec fn originating_entity(&self) -> Option<EntityId> {
        Some(self.source_entity_id)
    }

    open spec fn receiving_entity(&self) -> Option<EntityId> {
        Some(self.target_entity_id)
    }

    fn originator(&self) -> (entity: Option<&EntityId>) {
        Some(&self.source_entity_id)
    }

    fn receiver(&self) -> (entity: Option<&EntityId>) {
        Some(&self.target_entity_id)
    }
}

} // verus!
