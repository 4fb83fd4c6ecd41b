//! What a character has of a sort of ability when its sheet names none.

use crate::character::{CharacterChant, CharacterCombatTechnique, CharacterSkill, CharacterSpell};
use vstd::prelude::*;

verus! {

pub fn skills() -> (none: Vec<CharacterSkill>)
    ensures
        none@.len() == 0,
{
    Vec::new()
}

pub fn combattechniques() -> (none: Vec<CharacterCombatTechnique>)
    ensures
        none@.len() == 0,
{
    Vec::new()
}

pub fn spells() -> (none: Vec<CharacterSpell>)
    ensures
        none@.len() == 0,
{
    Vec::new()
}

pub fn chants() -> (none: Vec<CharacterChant>)
    ensures
        none@.len() == 0,
{
    Vec::new()
}

} // verus!
