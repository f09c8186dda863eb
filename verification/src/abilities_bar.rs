//! The abilities bar model: which ability buttons an entity's bar shows and
//! when a button is enabled.  Drawing and input handling live with the
//! interface layer; this is the logic it renders.

use vstd::prelude::*;
use crate::area_state::{ActorState, spec_ability_state};

verus! {

/// The abilities bar of one entity.
pub struct AbilitiesBar {
    pub entity: usize,
}

impl AbilitiesBar {
    pub fn new(entity: usize) -> (r: AbilitiesBar)
        ensures
            r.entity == entity,
    {
        AbilitiesBar { entity }
    }
}

/// One ability button: the entity it belongs to and the ability it
/// activates.
pub struct AbilityButton {
    pub entity: usize,
    pub ability: String,
}

impl AbilityButton {
    pub fn new(ability: &str, entity: usize) -> (r: AbilityButton)
        ensures
            r.ability@ == ability@,
            r.entity == entity,
    {
        AbilityButton { entity, ability: ability.to_owned() }
    }

    /// A button is enabled exactly when its owner can activate the ability.
    pub fn is_enabled(&self, actor: &ActorState) -> (r: bool)
        ensures
            r == actor.spec_can_activate(self.ability@),
    {
        actor.can_activate(self.ability.as_str())
    }

    /// The cooldown text shown on the button: the remaining rounds, or
    /// nothing when the ability is ready.
    pub fn duration_rounds(&self, actor: &ActorState) -> (r: Option<u32>)
        ensures
            r == (match spec_ability_state(actor.ability_states@, self.ability@) {
                Some(st) => if st.remaining_duration_rounds > 0 {
                    Some(st.remaining_duration_rounds)
                } else {
                    None::<u32>
                },
                None => None::<u32>,
            }),
    {
        match actor.ability_state(self.ability.as_str()) {
            Some(st) => {
                if st.remaining_duration_rounds > 0 {
                    Some(st.remaining_duration_rounds)
                } else {
                    None
                }
            },
            None => None,
        }
    }
}

impl AbilitiesBar {
    /// The buttons the bar shows: one per ability of the actor that has a
    /// live ability state, in ability order.  An ability without state gets
    /// no button.
    pub fn buttons(&self, actor: &ActorState) -> (r: Vec<AbilityButton>)
        ensures
            forall|j: int|
                0 <= j < r@.len() ==> (#[trigger] r@[j]).entity == self.entity
                    && spec_ability_state(actor.ability_states@, r@[j].ability@) is Some,
    {
        let mut out: Vec<AbilityButton> = Vec::new();
        let n: usize = actor.actor.abilities.len();
        let mut i: usize = 0;
        while i < n
            invariant
                n == actor.actor.abilities@.len(),
                0 <= i <= n,
                forall|j: int|
                    0 <= j < out@.len() ==> (#[trigger] out@[j]).entity == self.entity
                        && spec_ability_state(actor.ability_states@, out@[j].ability@) is Some,
            decreases n - i,
        {
            let ability = &actor.actor.abilities[i];
            match actor.ability_state(ability.id.as_str()) {
                Some(_) => {
                    out.push(AbilityButton::new(ability.id.as_str(), self.entity));
                },
                None => (),
            }
            i = i + 1;
        }
        out
    }
}

} // verus!
