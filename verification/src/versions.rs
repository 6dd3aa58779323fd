//! Versioned archetype policy generations.
//!
//! Every generation is kept, never edited in place: "v2 is stronger than v1"
//! is only meaningful if v1 is still runnable.

use vstd::prelude::*;
use crate::text::text_eq;

verus! {

/// One generation of the archetype policy, ordered oldest to newest.
#[derive(Clone, Copy, Debug, PartialEq, Eq, PartialOrd, Ord, Hash, Structural)]
pub enum PolicyVersion {
    /// Shared planners: mana payment, one-ply combat, target scoring.
    V1,
    /// Whole-set attack planning.
    V2,
    /// Valued blocking: a block is worth the damage it stops.
    V3,
    /// Land sequencing driven by what a land makes castable this turn.
    V4,
    /// Activated abilities: pingers, token engines, and tappers.
    V5,
    /// Instant timing: hold interaction for the window where it is worth most.
    V6,
    /// Instant timing split by what the spell does.
    V7,
    /// Attacks planned against the valued defender used by the real blocker.
    V8,
}

impl PolicyVersion {
    /// Every generation, oldest first.
    pub const ALL: [PolicyVersion; 8] = [
        PolicyVersion::V1,
        PolicyVersion::V2,
        PolicyVersion::V3,
        PolicyVersion::V4,
        PolicyVersion::V5,
        PolicyVersion::V6,
        PolicyVersion::V7,
        PolicyVersion::V8,
    ];

    /// The generation number, 1 for the oldest.
    pub open spec fn rank(self) -> int {
        match self {
            PolicyVersion::V1 => 1,
            PolicyVersion::V2 => 2,
            PolicyVersion::V3 => 3,
            PolicyVersion::V4 => 4,
            PolicyVersion::V5 => 5,
            PolicyVersion::V6 => 6,
            PolicyVersion::V7 => 7,
            PolicyVersion::V8 => 8,
        }
    }

    /// The generation with number `rank`, if there is one.
    pub open spec fn of_rank(rank: int) -> Option<PolicyVersion> {
        if rank == 1 {
            Some(PolicyVersion::V1)
        } else if rank == 2 {
            Some(PolicyVersion::V2)
        } else if rank == 3 {
            Some(PolicyVersion::V3)
        } else if rank == 4 {
            Some(PolicyVersion::V4)
        } else if rank == 5 {
            Some(PolicyVersion::V5)
        } else if rank == 6 {
            Some(PolicyVersion::V6)
        } else if rank == 7 {
            Some(PolicyVersion::V7)
        } else if rank == 8 {
            Some(PolicyVersion::V8)
        } else {
            None
        }
    }

    /// The identifier of a generation: `v` followed by its number.
    pub open spec fn id_view(self) -> Seq<char> {
        match self {
            PolicyVersion::V1 => "v1"@,
            PolicyVersion::V2 => "v2"@,
            PolicyVersion::V3 => "v3"@,
            PolicyVersion::V4 => "v4"@,
            PolicyVersion::V5 => "v5"@,
            PolicyVersion::V6 => "v6"@,
            PolicyVersion::V7 => "v7"@,
            PolicyVersion::V8 => "v8"@,
        }
    }

    /// The generation an identifier names, if any.
    pub open spec fn parse_view(value: Seq<char>) -> Option<PolicyVersion> {
        if value == "v1"@ {
            Some(PolicyVersion::V1)
        } else if value == "v2"@ {
            Some(PolicyVersion::V2)
        } else if value == "v3"@ {
            Some(PolicyVersion::V3)
        } else if value == "v4"@ {
            Some(PolicyVersion::V4)
        } else if value == "v5"@ {
            Some(PolicyVersion::V5)
        } else if value == "v6"@ {
            Some(PolicyVersion::V6)
        } else if value == "v7"@ {
            Some(PolicyVersion::V7)
        } else if value == "v8"@ {
            Some(PolicyVersion::V8)
        } else {
            None
        }
    }

    /// The newest generation. Campaigns that do not care about history use
    /// this.
    pub fn latest() -> (newest: PolicyVersion)
        ensures
            newest == PolicyVersion::V8,
            forall|version: PolicyVersion| version.rank() <= newest.rank(),
    {
        PolicyVersion::V8
    }

    /// The stable identifier of this generation.
    pub fn id(self) -> (id: &'static str)
        ensures
            id@ == self.id_view(),
    {
        match self {
            PolicyVersion::V1 => "v1",
            PolicyVersion::V2 => "v2",
            PolicyVersion::V3 => "v3",
            PolicyVersion::V4 => "v4",
            PolicyVersion::V5 => "v5",
            PolicyVersion::V6 => "v6",
            PolicyVersion::V7 => "v7",
            PolicyVersion::V8 => "v8",
        }
    }

    /// Parses a generation identifier.
    pub fn parse(value: &str) -> (parsed: Option<PolicyVersion>)
        ensures
            parsed == PolicyVersion::parse_view(value@),
    {
        if text_eq(value, "v1") {
            Some(PolicyVersion::V1)
        } else if text_eq(value, "v2") {
            Some(PolicyVersion::V2)
        } else if text_eq(value, "v3") {
            Some(PolicyVersion::V3)
        } else if text_eq(value, "v4") {
            Some(PolicyVersion::V4)
        } else if text_eq(value, "v5") {
            Some(PolicyVersion::V5)
        } else if text_eq(value, "v6") {
            Some(PolicyVersion::V6)
        } else if text_eq(value, "v7") {
            Some(PolicyVersion::V7)
        } else if text_eq(value, "v8") {
            Some(PolicyVersion::V8)
        } else {
            None
        }
    }

    /// The generation immediately before this one, for ladder comparisons.
    pub fn previous(self) -> (earlier: Option<PolicyVersion>)
        ensures
            earlier == PolicyVersion::of_rank(self.rank() - 1),
    {
        match self {
            PolicyVersion::V1 => None,
            PolicyVersion::V2 => Some(PolicyVersion::V1),
            PolicyVersion::V3 => Some(PolicyVersion::V2),
            PolicyVersion::V4 => Some(PolicyVersion::V3),
            PolicyVersion::V5 => Some(PolicyVersion::V4),
            PolicyVersion::V6 => Some(PolicyVersion::V5),
            PolicyVersion::V7 => Some(PolicyVersion::V6),
            PolicyVersion::V8 => Some(PolicyVersion::V7),
        }
    }
}

/// Every generation round-trips through its identifier, no two generations
/// share one, and walking `previous` from any generation steps down by
/// exactly one until the oldest, which has none.
pub proof fn versions_round_trip_and_chain(version: PolicyVersion, other: PolicyVersion)
    ensures
        PolicyVersion::parse_view(version.id_view()) == Some(version),
        version != other ==> version.id_view() != other.id_view(),
        PolicyVersion::of_rank(version.rank()) == Some(version),
        version.rank() == 1 <==> PolicyVersion::of_rank(version.rank() - 1) is None,
        PolicyVersion::of_rank(version.rank() - 1) matches Some(earlier) ==> earlier.rank() + 1 == version.rank(),
{
    reveal_strlit("v1");
    reveal_strlit("v2");
    reveal_strlit("v3");
    reveal_strlit("v4");
    reveal_strlit("v5");
    reveal_strlit("v6");
    reveal_strlit("v7");
    reveal_strlit("v8");
    assert("v1"@[1] == '1' && "v2"@[1] == '2' && "v3"@[1] == '3' && "v4"@[1] == '4');
    assert("v5"@[1] == '5' && "v6"@[1] == '6' && "v7"@[1] == '7' && "v8"@[1] == '8');
}

// ---------------------------------------------------------------------------
// The frozen reference
// ---------------------------------------------------------------------------

/// Stable identifier for the frozen reference, used in rosters and receipts.
pub const REFERENCE_ID: &'static str = "reference_v1";

/// The generation `reference_v1` freezes. Deliberately a constant and not
/// the newest generation: a reference that tracks the newest is not a
/// reference.
pub const REFERENCE_VERSION: PolicyVersion = PolicyVersion::V5;

/// The archetype policy ids the freeze is pinned to, in archetype order.
pub const REFERENCE_POLICY_IDS: [&'static str; 4] = [
    "rav.archetype-aggro.v5",
    "rav.archetype-midrange.v5",
    "rav.archetype-burn.v5",
    "rav.archetype-control.v5",
];

/// The reference is older than the newest generation, so a new generation
/// is always a candidate measured against it rather than a new origin.
pub proof fn reference_does_not_track_latest()
    ensures
        REFERENCE_VERSION.rank() < PolicyVersion::V8.rank(),
        REFERENCE_VERSION != PolicyVersion::V8,
{
}

} // verus!
