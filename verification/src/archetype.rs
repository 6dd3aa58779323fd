//! Archetypes as objective functions.
//!
//! An archetype is not a card list; it is what the pilot is trying to do.
//! Aggro spends resources to end the game early, midrange trades
//! efficiently, burn counts to twenty, control preserves life and material.

use vstd::prelude::*;
use crate::planner::combat::Aggression;
use crate::text::text_eq;

verus! {

/// The play pattern a deck is piloted with.
#[derive(Clone, Copy, Debug, PartialEq, Eq, PartialOrd, Ord, Hash, Structural)]
pub enum Archetype {
    /// Deploy cheap threats, attack relentlessly, use burn as reach.
    Aggro,
    /// Trade efficiently, build a superior board, win the long game.
    Midrange,
    /// Ignore the board where possible; point damage at the opponent's face.
    Burn,
    /// Preserve life and material, deploy late, win with card quality.
    Control,
}

impl Archetype {
    /// Every archetype, in declaration order.
    pub const ALL: [Archetype; 4] = [Archetype::Aggro, Archetype::Midrange, Archetype::Burn, Archetype::Control];

    /// The stable identifier used in deck files and result records.
    pub open spec fn id_view(self) -> Seq<char> {
        match self {
            Archetype::Aggro => "aggro"@,
            Archetype::Midrange => "midrange"@,
            Archetype::Burn => "burn"@,
            Archetype::Control => "control"@,
        }
    }

    /// The archetype an identifier names, if any.
    pub open spec fn parse_view(value: Seq<char>) -> Option<Archetype> {
        if value == "aggro"@ {
            Some(Archetype::Aggro)
        } else if value == "midrange"@ {
            Some(Archetype::Midrange)
        } else if value == "burn"@ {
            Some(Archetype::Burn)
        } else if value == "control"@ {
            Some(Archetype::Control)
        } else {
            None
        }
    }

    /// The stable identifier used in deck files and result records.
    pub fn id(self) -> (id: &'static str)
        ensures
            id@ == self.id_view(),
    {
        match self {
            Archetype::Aggro => "aggro",
            Archetype::Midrange => "midrange",
            Archetype::Burn => "burn",
            Archetype::Control => "control",
        }
    }

    /// Parses an identifier from a deck file.
    pub fn parse(value: &str) -> (parsed: Option<Archetype>)
        ensures
            parsed == Archetype::parse_view(value@),
    {
        if text_eq(value, "aggro") {
            Some(Archetype::Aggro)
        } else if text_eq(value, "midrange") {
            Some(Archetype::Midrange)
        } else if text_eq(value, "burn") {
            Some(Archetype::Burn)
        } else if text_eq(value, "control") {
            Some(Archetype::Control)
        } else {
            None
        }
    }

    /// How readily this archetype accepts an even or losing combat trade.
    pub fn aggression(self) -> (aggression: Aggression)
        ensures
            aggression == (if self == Archetype::Aggro {
                Aggression::Pressing
            } else {
                Aggression::Measured
            }),
    {
        match self {
            Archetype::Aggro => Aggression::Pressing,
            Archetype::Midrange | Archetype::Burn => Aggression::Measured,
            Archetype::Control => Aggression::Measured,
        }
    }

    /// The mana value at and below which this archetype prefers to keep
    /// deploying rather than holding up interaction.
    pub fn curve_ceiling(self) -> (ceiling: u8)
        ensures
            ceiling == match self {
                Archetype::Aggro | Archetype::Burn => 4u8,
                Archetype::Midrange => 6u8,
                Archetype::Control => 8u8,
            },
    {
        match self {
            Archetype::Aggro | Archetype::Burn => 4,
            Archetype::Midrange => 6,
            Archetype::Control => 8,
        }
    }

    /// Whether burn should be pointed at the opponent's face by default
    /// rather than used as removal.
    pub fn burn_goes_face(self) -> (face: bool)
        ensures
            face == (self == Archetype::Burn),
    {
        match self {
            Archetype::Burn => true,
            _ => false,
        }
    }

    /// Life total below which this archetype stops spending life on its own
    /// effects (shocklands, painful mana, self-damaging burn).
    pub fn life_floor(self) -> (floor: i64)
        ensures
            floor == match self {
                Archetype::Aggro | Archetype::Burn => 5i64,
                Archetype::Midrange => 8i64,
                Archetype::Control => 10i64,
            },
    {
        match self {
            Archetype::Aggro | Archetype::Burn => 5,
            Archetype::Midrange => 8,
            Archetype::Control => 10,
        }
    }
}

/// Every archetype round-trips through its identifier, and no two
/// archetypes share one.
pub proof fn archetype_ids_round_trip(archetype: Archetype, other: Archetype)
    ensures
        Archetype::parse_view(archetype.id_view()) == Some(archetype),
        archetype != other ==> archetype.id_view() != other.id_view(),
{
    reveal_strlit("aggro");
    reveal_strlit("midrange");
    reveal_strlit("burn");
    reveal_strlit("control");
    assert("aggro"@.len() == 5);
    assert("midrange"@.len() == 8);
    assert("burn"@.len() == 4);
    assert("control"@.len() == 7);
}

/// An identifier that names no archetype parses to nothing.
pub proof fn unknown_archetype_id_is_rejected(value: Seq<char>)
    requires
        forall|archetype: Archetype| archetype.id_view() != value,
    ensures
        Archetype::parse_view(value) is None,
{
    assert(Archetype::Aggro.id_view() != value);
    assert(Archetype::Midrange.id_view() != value);
    assert(Archetype::Burn.id_view() != value);
    assert(Archetype::Control.id_view() != value);
}

} // verus!
