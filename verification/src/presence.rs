//! What clearing one presence bit does to a body.

use vstd::prelude::*;
use crate::bits::value_of;
use crate::conditional::mask_matches;
use crate::entity_state::{entity_state_body_spec, lemma_mask_matches, lemma_presence_of_parsed,
    EntityState, FPF_BIT_FORCE_ID, FPF_BIT_VP,
    FPF_BIT_ENTITY_TYPE, FPF_BIT_ALT_ENTITY_TYPE, FPF_BIT_LIN_VELOCITY,
    FPF_BIT_ENTITY_LOCATION, FPF_BIT_ENTITY_ORIENTATION, FPF_BIT_ENTITY_APPEARANCE,
    FPF_BIT_DR_OTHER, FPF_BIT_DR_LIN_ACCELERATION, FPF_BIT_DR_ANG_VELOCITY,
    FPF_BIT_MARKING, FPF_BIT_CAPABILITIES};

verus! {

/// One of the presence bits of a body.
pub open spec fn is_presence_bit(mask: u16) -> bool {
    mask == FPF_BIT_FORCE_ID
        || mask == FPF_BIT_VP
        || mask == FPF_BIT_ENTITY_TYPE
        || mask == FPF_BIT_ALT_ENTITY_TYPE
        || mask == FPF_BIT_LIN_VELOCITY
        || mask == FPF_BIT_ENTITY_LOCATION
        || mask == FPF_BIT_ENTITY_ORIENTATION
        || mask == FPF_BIT_ENTITY_APPEARANCE
        || mask == FPF_BIT_DR_OTHER
        || mask == FPF_BIT_DR_LIN_ACCELERATION
        || mask == FPF_BIT_DR_ANG_VELOCITY
        || mask == FPF_BIT_MARKING
        || mask == FPF_BIT_CAPABILITIES
}

proof fn lemma_cleared_mask(fields_present: u16, cleared: u16, mask: u16)
    by (bit_vector)
    requires
        is_presence_bit(cleared),
        is_presence_bit(mask),
    ensures
        ((fields_present & !cleared) & mask != 0) == (mask != cleared && fields_present & mask
            != 0),
{
}

/// With one presence bit cleared, a mask picks what it picked before,
/// except for the cleared bit itself.
pub proof fn lemma_clear_presence_bit(fields_present: u16, cleared: u16, mask: u16)
    requires
        is_presence_bit(cleared),
        is_presence_bit(mask),
    ensures
        mask_matches(fields_present & !cleared, mask) == (mask != cleared && mask_matches(
            fields_present,
            mask,
        )),
{
    lemma_mask_matches(fields_present, mask);
    lemma_mask_matches(fields_present & !cleared, mask);
    lemma_cleared_mask(fields_present, cleared, mask);
}

/// Of two bodies that are no full updates, the second under the presence
/// bits of the first but for one that is cleared: the field of that bit is
/// absent from the second, and every other field is there in the second
/// exactly when it is there in the first.
pub proof fn lemma_cleared_bit(
    before: EntityState,
    after: EntityState,
    fields_present: u16,
    cleared: u16,
)
    requires
        is_presence_bit(cleared),
        before.presence_follows(false, fields_present),
        after.presence_follows(false, fields_present & !cleared),
    ensures
        (after.force_id is Some) == (FPF_BIT_FORCE_ID != cleared && before.force_id is Some),
        (after.number_of_var_params is Some) == (
            FPF_BIT_VP != cleared && before.number_of_var_params is Some
        ),
        (after.entity_type is Some) == (
            FPF_BIT_ENTITY_TYPE != cleared && before.entity_type is Some
        ),
        (after.alternate_entity_type is Some) == (
            FPF_BIT_ALT_ENTITY_TYPE != cleared && before.alternate_entity_type is Some
        ),
        (after.entity_linear_velocity is Some) == (
            FPF_BIT_LIN_VELOCITY != cleared && before.entity_linear_velocity is Some
        ),
        (after.entity_location is Some) == (
            FPF_BIT_ENTITY_LOCATION != cleared && before.entity_location is Some
        ),
        (after.entity_orientation is Some) == (
            FPF_BIT_ENTITY_ORIENTATION != cleared && before.entity_orientation is Some
        ),
        (after.entity_appearance is Some) == (
            FPF_BIT_ENTITY_APPEARANCE != cleared && before.entity_appearance is Some
        ),
        (after.dr_params_other is Some) == (
            FPF_BIT_DR_OTHER != cleared && before.dr_params_other is Some
        ),
        (after.dr_params_entity_linear_acceleration is Some) == (
            FPF_BIT_DR_LIN_ACCELERATION != cleared
                && before.dr_params_entity_linear_acceleration is Some
        ),
        (after.dr_params_entity_angular_velocity is Some) == (
            FPF_BIT_DR_ANG_VELOCITY != cleared && before.dr_params_entity_angular_velocity is Some
        ),
        (after.entity_marking is Some) == (
            FPF_BIT_MARKING != cleared && before.entity_marking is Some
        ),
        (after.capabilities is Some) == (
            FPF_BIT_CAPABILITIES != cleared && before.capabilities is Some
        ),
{
    lemma_clear_presence_bit(fields_present, cleared, FPF_BIT_FORCE_ID);
    lemma_clear_presence_bit(fields_present, cleared, FPF_BIT_VP);
    lemma_clear_presence_bit(fields_present, cleared, FPF_BIT_ENTITY_TYPE);
    lemma_clear_presence_bit(fields_present, cleared, FPF_BIT_ALT_ENTITY_TYPE);
    lemma_clear_presence_bit(fields_present, cleared, FPF_BIT_LIN_VELOCITY);
    lemma_clear_presence_bit(fields_present, cleared, FPF_BIT_ENTITY_LOCATION);
    lemma_clear_presence_bit(fields_present, cleared, FPF_BIT_ENTITY_ORIENTATION);
    lemma_clear_presence_bit(fields_present, cleared, FPF_BIT_ENTITY_APPEARANCE);
    lemma_clear_presence_bit(fields_present, cleared, FPF_BIT_DR_OTHER);
    lemma_clear_presence_bit(fields_present, cleared, FPF_BIT_DR_LIN_ACCELERATION);
    lemma_clear_presence_bit(fields_present, cleared, FPF_BIT_DR_ANG_VELOCITY);
    lemma_clear_presence_bit(fields_present, cleared, FPF_BIT_MARKING);
    lemma_clear_presence_bit(fields_present, cleared, FPF_BIT_CAPABILITIES);
}

/// Of two bodies that parse and are no full updates, the second with the
/// presence bits of the first but for one that is cleared: the field of
/// that bit is absent from the second, and every other field is there in
/// the second exactly when it is there in the first.
pub proof fn lemma_cleared_bit_of_parsed(
    first: Seq<bool>,
    first_at: int,
    second: Seq<bool>,
    second_at: int,
    cleared: u16,
)
    requires
        0 <= first_at,
        0 <= second_at,
        is_presence_bit(cleared),
        entity_state_body_spec(first, first_at) is Ok,
        entity_state_body_spec(second, second_at) is Ok,
        !first[first_at + 14],
        !second[second_at + 14],
        value_of(second.subrange(second_at, second_at + 13)) as u16 == (value_of(
            first.subrange(first_at, first_at + 13),
        ) as u16) & !cleared,
    ensures
        ({
            let before = entity_state_body_spec(first, first_at)->Ok_0.0;
            let after = entity_state_body_spec(second, second_at)->Ok_0.0;
            &&& (after.force_id is Some) == (FPF_BIT_FORCE_ID != cleared && before.force_id is Some)
            &&& (after.number_of_var_params is Some) == (
                FPF_BIT_VP != cleared && before.number_of_var_params is Some
            )
            &&& (after.entity_type is Some) == (
                FPF_BIT_ENTITY_TYPE != cleared && before.entity_type is Some
            )
            &&& (after.alternate_entity_type is Some) == (
                FPF_BIT_ALT_ENTITY_TYPE != cleared && before.alternate_entity_type is Some
            )
            &&& (after.entity_linear_velocity is Some) == (
                FPF_BIT_LIN_VELOCITY != cleared && before.entity_linear_velocity is Some
            )
            &&& (after.entity_location is Some) == (
                FPF_BIT_ENTITY_LOCATION != cleared && before.entity_location is Some
            )
            &&& (after.entity_orientation is Some) == (
                FPF_BIT_ENTITY_ORIENTATION != cleared && before.entity_orientation is Some
            )
            &&& (after.entity_appearance is Some) == (
                FPF_BIT_ENTITY_APPEARANCE != cleared && before.entity_appearance is Some
            )
            &&& (after.dr_params_other is Some) == (
                FPF_BIT_DR_OTHER != cleared && before.dr_params_other is Some
            )
            &&& (after.dr_params_entity_linear_acceleration is Some) == (
                FPF_BIT_DR_LIN_ACCELERATION != cleared
                    && before.dr_params_entity_linear_acceleration is Some
            )
            &&& (after.dr_params_entity_angular_velocity is Some) == (
                FPF_BIT_DR_ANG_VELOCITY != cleared
                    && before.dr_params_entity_angular_velocity is Some
            )
            &&& (after.entity_marking is Some) == (
                FPF_BIT_MARKING != cleared && before.entity_marking is Some
            )
            &&& (after.capabilities is Some) == (
                FPF_BIT_CAPABILITIES != cleared && before.capabilities is Some
            )
        }),
{
    lemma_presence_of_parsed(first, first_at);
    lemma_presence_of_parsed(second, second_at);
    lemma_cleared_bit(
        entity_state_body_spec(first, first_at)->Ok_0.0,
        entity_state_body_spec(second, second_at)->Ok_0.0,
        value_of(first.subrange(first_at, first_at + 13)) as u16,
        cleared,
    );
}


} // verus!
