//! Target legality for removal, burn and pump: which permanents a spell may
//! legally be aimed at, decided conservatively.

use vstd::prelude::*;
use crate::planner::board::{
    Board, CardFacts, CardType, Keyword, Permanent, TargetRequirement, has_keyword,
};

verus! {

/// Whether a permanent can legally be chosen as a target at all.
pub open spec fn targetable_spec(permanent: Permanent) -> bool {
    !permanent.holds(Keyword::Shroud)
}

/// Whether a permanent can legally be chosen as a target at all.
pub fn targetable(permanent: &Permanent) -> (ok: bool)
    ensures
        ok == targetable_spec(*permanent),
{
    !permanent.has(Keyword::Shroud)
}

/// Whether `permanent` is one of the creatures currently attacking.
pub open spec fn attacking(board: Board, permanent: Permanent) -> bool {
    exists|k: int| 0 <= k < board.attackers@.len() && (#[trigger] board.attackers@[k]).object == permanent.object
}

/// Whether `permanent` satisfies `requirement`, conservatively: a requirement
/// the planner cannot evaluate from the board is never met.
pub open spec fn meets(permanent: Permanent, requirement: TargetRequirement, board: Board) -> bool {
    targetable_spec(permanent) && match requirement {
        TargetRequirement::Any | TargetRequirement::Permanent => true,
        TargetRequirement::Creature
        | TargetRequirement::DistinctCreature
        | TargetRequirement::ArtifactOrCreature
        | TargetRequirement::PlayerOrCreature => permanent.is_creature,
        TargetRequirement::FlyingCreature => permanent.is_creature && permanent.holds(Keyword::Flying),
        TargetRequirement::AttackingOrBlockingCreature => permanent.is_creature && attacking(board, permanent),
        TargetRequirement::Land => permanent.is_land,
        TargetRequirement::ControlledLand => permanent.is_land && permanent.controller == board.me,
        TargetRequirement::ControlledCreature => permanent.is_creature && permanent.controller == board.me,
        TargetRequirement::OpponentCreature => permanent.is_creature && permanent.controller != board.me,
        _ => false,
    }
}

/// Whether `permanent` satisfies `requirement`.
///
/// Conservative by construction: a requirement this planner cannot evaluate
/// returns `false`, so it declines to cast rather than submitting an illegal
/// target.
pub fn matches_requirement(permanent: &Permanent, requirement: TargetRequirement, board: &Board) -> (ok: bool)
    ensures
        ok == meets(*permanent, requirement, *board),
{
    if !targetable(permanent) {
        return false;
    }
    let mut is_attacking = false;
    let mut k: usize = 0;
    while k < board.attackers.len()
        invariant
            k <= board.attackers@.len(),
            is_attacking == exists|q: int| 0 <= q < k && (#[trigger] board.attackers@[q]).object == permanent.object,
        decreases board.attackers@.len() - k,
    {
        if board.attackers[k].object == permanent.object {
            is_attacking = true;
        }
        k = k + 1;
    }
    match requirement {
        TargetRequirement::Any | TargetRequirement::Permanent => true,
        TargetRequirement::Creature
        | TargetRequirement::DistinctCreature
        | TargetRequirement::ArtifactOrCreature
        | TargetRequirement::PlayerOrCreature => permanent.is_creature,
        TargetRequirement::FlyingCreature => permanent.is_creature && permanent.has(Keyword::Flying),
        TargetRequirement::AttackingOrBlockingCreature => permanent.is_creature && is_attacking,
        TargetRequirement::Land => permanent.is_land,
        TargetRequirement::ControlledLand => permanent.is_land && permanent.controller == board.me,
        TargetRequirement::ControlledCreature => permanent.is_creature && permanent.controller == board.me,
        TargetRequirement::OpponentCreature => permanent.is_creature && permanent.controller != board.me,
        _ => false,
    }
}

/// Whether a card may be cast while an opponent has priority or during
/// their turn.
pub fn is_instant_speed(facts: &CardFacts) -> (instant: bool)
    ensures
        instant == (facts.is_instant_speed || facts.keywords@.contains(Keyword::Flash)),
{
    facts.is_instant_speed || has_keyword(&facts.keywords, Keyword::Flash)
}

/// Whether a card type occupies the battlefield.
pub open spec fn permanent_type(kind: CardType) -> bool {
    match kind {
        CardType::Artifact
        | CardType::Creature
        | CardType::Enchantment
        | CardType::Land
        | CardType::Planeswalker => true,
        _ => false,
    }
}

/// Whether a card with these types is a permanent.
pub fn is_permanent(types: &Vec<CardType>) -> (permanent: bool)
    ensures
        permanent == exists|k: int| 0 <= k < types@.len() && permanent_type(#[trigger] types@[k]),
{
    let mut k: usize = 0;
    while k < types.len()
        invariant
            k <= types@.len(),
            forall|q: int| 0 <= q < k ==> !permanent_type(#[trigger] types@[q]),
        decreases types@.len() - k,
    {
        let hit = match types[k] {
            CardType::Artifact
            | CardType::Creature
            | CardType::Enchantment
            | CardType::Land
            | CardType::Planeswalker => true,
            _ => false,
        };
        if hit {
            assert(permanent_type(types@[k as int]));
            return true;
        }
        k = k + 1;
    }
    false
}

} // verus!
