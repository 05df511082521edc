use cdis_assemble::detonation::{
    BodyInfo, DescriptorRecord, Detonation, DetonationResult, EntityId, EntityType, EventId,
    ExplosiveMaterialCategories, Interaction, Location, MunitionDescriptor, PduType,
    SimulationAddress, VariableParameter, VectorF32,
};

fn entity(n: u16) -> EntityId {
    EntityId { simulation_address: SimulationAddress { site_id: 1, application_id: 2 }, entity_id: n }
}

fn tank() -> EntityType {
    EntityType { kind: 1, domain: 1, country: 153, category: 1, subcategory: 2, specific: 3, extra: 0 }
}

fn shell() -> EntityType {
    EntityType { kind: 2, domain: 9, country: 225, category: 2, subcategory: 14, specific: 1, extra: 0 }
}

fn sample() -> Detonation {
    Detonation {
        source_entity_id: entity(10),
        target_entity_id: entity(20),
        exploding_entity_id: entity(30),
        event_id: EventId {
            simulation_address: SimulationAddress { site_id: 1, application_id: 2 },
            event_id: 7,
        },
        velocity: VectorF32 {
            first_vector_component: 1.5f32.to_bits(),
            second_vector_component: 0,
            third_vector_component: (-2.0f32).to_bits(),
        },
        location_in_world_coordinates: Location {
            x_coordinate: 1.0f64.to_bits(),
            y_coordinate: 2.0f64.to_bits(),
            z_coordinate: 3.0f64.to_bits(),
        },
        descriptor: DescriptorRecord::Expendable { entity_type: tank() },
        location_in_entity_coordinates: VectorF32 {
            first_vector_component: 0,
            second_vector_component: 0,
            third_vector_component: 0,
        },
        detonation_result: DetonationResult { code: 1 },
        variable_parameters: vec![],
    }
}

#[test]
fn with_descriptor_replaces_only_the_descriptor() {
    let before = sample();
    let descriptor = DescriptorRecord::new_munition(
        shell(),
        MunitionDescriptor { warhead: 1000, fuse: 100, quantity: 1, rate: 0 },
    );
    let after = before.clone().with_descriptor(descriptor);
    assert_eq!(after.descriptor, descriptor);
    assert_eq!(after, Detonation { descriptor, ..before });
}

#[test]
fn with_munition_descriptor_builds_a_munition_record() {
    let munition = MunitionDescriptor { warhead: 1000, fuse: 100, quantity: 2, rate: 3 };
    let after = sample().with_munition_descriptor(shell(), munition);
    assert_eq!(after.descriptor, DescriptorRecord::Munition { entity_type: shell(), munition });
    assert_eq!(after.source_entity_id, entity(10));
}

#[test]
fn with_expendable_descriptor_builds_an_expendable_record() {
    let after = sample().with_munition_descriptor(
        shell(),
        MunitionDescriptor { warhead: 0, fuse: 0, quantity: 0, rate: 0 },
    );
    let after = after.with_expendable_descriptor(shell());
    assert_eq!(after.descriptor, DescriptorRecord::Expendable { entity_type: shell() });
    assert_eq!(after.event_id.event_id, 7);
}

#[test]
fn with_explosion_descriptor_keeps_the_force_bit_for_bit() {
    let force = 12.25f32;
    let material = ExplosiveMaterialCategories { code: 10 };
    let after = sample().with_explosion_descriptor(tank(), material, force.to_bits());
    match after.descriptor {
        DescriptorRecord::Explosion { entity_type, explosive_material, explosive_force } => {
            assert_eq!(entity_type, tank());
            assert_eq!(explosive_material, material);
            assert_eq!(f32::from_bits(explosive_force), 12.25);
        },
        _ => panic!("not an explosion descriptor"),
    }
}

#[test]
fn body_length_counts_sixteen_bytes_for_each_variable_parameter() {
    let mut detonation = sample();
    assert_eq!(detonation.body_length(), 104);
    detonation.variable_parameters.push(VariableParameter { record_type: 0, fields: [0; 15] });
    detonation.variable_parameters.push(VariableParameter { record_type: 1, fields: [9; 15] });
    assert_eq!(detonation.body_length(), 136);
    assert_eq!(detonation.body_type(), PduType::Detonation);
}

#[test]
fn originator_and_receiver_are_source_and_target() {
    let detonation = sample();
    assert_eq!(detonation.originator(), Some(&entity(10)));
    assert_eq!(detonation.receiver(), Some(&entity(20)));
}
