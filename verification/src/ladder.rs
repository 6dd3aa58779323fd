//! The policy-version ladder's bookkeeping: which generations are compared,
//! who sits where, and how one deck's games are counted.
//!
//! The deck is held fixed and only the pilot varies, so a win rate is
//! attributable to the policy change. Each seed is played twice with the
//! versions swapped, so the play advantage and the shuffle both cancel.

use vstd::prelude::*;
use crate::deck_match::{DeckMatchResult, DeckMatchTermination, EngineFinding};
use crate::matchup::copy_findings;
use crate::planner::board::PlayerId;
use crate::versions::PolicyVersion;

verus! {

/// Every successive generation pair, oldest step first: each generation
/// against the one before it.
pub fn ladder_pairs() -> (pairs: Vec<(PolicyVersion, PolicyVersion)>)
    ensures
        pairs@.len() == 7,
        forall|i: int|
            0 <= i < 7 ==> #[trigger] pairs@[i] == (
                PolicyVersion::of_rank(i + 2)->Some_0,
                PolicyVersion::of_rank(i + 1)->Some_0,
            ),
{
    let mut pairs: Vec<(PolicyVersion, PolicyVersion)> = Vec::new();
    let all = PolicyVersion::ALL;
    let mut i: usize = 0;
    while i < all.len()
        invariant
            i <= 8,
            all@ == seq![
                PolicyVersion::V1,
                PolicyVersion::V2,
                PolicyVersion::V3,
                PolicyVersion::V4,
                PolicyVersion::V5,
                PolicyVersion::V6,
                PolicyVersion::V7,
                PolicyVersion::V8,
            ],
            pairs@.len() == if i == 0 {
                0
            } else {
                i - 1
            },
            forall|k: int|
                0 <= k < pairs@.len() ==> #[trigger] pairs@[k] == (
                    PolicyVersion::of_rank(k + 2)->Some_0,
                    PolicyVersion::of_rank(k + 1)->Some_0,
                ),
        decreases 8 - i,
    {
        let challenger = all[i];
        if let Some(incumbent) = challenger.previous() {
            pairs.push((challenger, incumbent));
        }
        i = i + 1;
    }
    pairs
}

/// The generations in seats zero and one when the challenger sits in
/// `challenger_seat`: seat zero is on the play.
pub fn seat_versions(challenger: PolicyVersion, incumbent: PolicyVersion, challenger_seat: usize) -> (versions:
    [PolicyVersion; 2])
    ensures
        challenger_seat == 0 ==> versions@ == seq![challenger, incumbent],
        challenger_seat != 0 ==> versions@ == seq![incumbent, challenger],
{
    if challenger_seat == 0 {
        [challenger, incumbent]
    } else {
        [incumbent, challenger]
    }
}

/// One deck's running counts for the challenger.
#[derive(Clone, Debug, PartialEq, Eq)]
pub struct DeckTally {
    pub wins: u32,
    pub decided: u32,
    /// Engine-refused proposals; any nonzero value invalidates the deck.
    pub rejected: u32,
    /// Games stopped by a bound rather than by the rules.
    pub truncated: u32,
    pub turns: u64,
    pub games: u32,
    pub findings: Vec<EngineFinding>,
}

impl DeckTally {
    /// No games yet.
    pub fn new() -> (tally: DeckTally)
        ensures
            tally.wins == 0 && tally.decided == 0 && tally.rejected == 0 && tally.truncated == 0,
            tally.turns == 0 && tally.games == 0 && tally.findings@.len() == 0,
    {
        DeckTally { wins: 0, decided: 0, rejected: 0, truncated: 0, turns: 0, games: 0, findings: Vec::new() }
    }
}

/// The proposals a match's engine refused.
pub open spec fn refused(result: DeckMatchResult) -> int {
    if result.attempted_policy_moves > result.accepted_policy_moves {
        result.attempted_policy_moves - result.accepted_policy_moves
    } else {
        0
    }
}

/// Counts one game in which the challenger sat in `challenger_seat`: a
/// winner decides the game, for the challenger when it holds that seat; a
/// draw counts for nobody; any other stop is a truncation.
pub fn record_game(tally: &mut DeckTally, result: &DeckMatchResult, challenger_seat: usize)
    requires
        old(tally).games < u32::MAX,
        old(tally).decided < u32::MAX,
        old(tally).wins < u32::MAX,
        old(tally).truncated < u32::MAX,
        old(tally).rejected + refused(*result) <= u32::MAX,
        old(tally).turns + result.turns <= u64::MAX,
    ensures
        final(tally).games == old(tally).games + 1,
        final(tally).turns == old(tally).turns + result.turns,
        final(tally).rejected == old(tally).rejected + refused(*result),
        final(tally).findings@ == old(tally).findings@ + result.engine_findings@,
        match result.termination {
            DeckMatchTermination::Winner(PlayerId(seat)) => {
                &&& final(tally).decided == old(tally).decided + 1
                &&& final(tally).wins == old(tally).wins + if seat == challenger_seat {
                    1int
                } else {
                    0int
                }
                &&& final(tally).truncated == old(tally).truncated
            },
            DeckMatchTermination::Draw => {
                &&& final(tally).decided == old(tally).decided
                &&& final(tally).wins == old(tally).wins
                &&& final(tally).truncated == old(tally).truncated
            },
            _ => {
                &&& final(tally).decided == old(tally).decided
                &&& final(tally).wins == old(tally).wins
                &&& final(tally).truncated == old(tally).truncated + 1
            },
        },
{
    tally.games = tally.games + 1;
    tally.turns = tally.turns + result.turns as u64;
    tally.rejected = tally.rejected + result.attempted_policy_moves.saturating_sub(result.accepted_policy_moves);
    let mut found = copy_findings(&result.engine_findings);
    let ghost before = tally.findings@;
    tally.findings.append(&mut found);
    assert(tally.findings@ =~= before + result.engine_findings@);
    match result.termination {
        DeckMatchTermination::Winner(PlayerId(seat)) => {
            tally.decided = tally.decided + 1;
            if seat == challenger_seat {
                tally.wins = tally.wins + 1;
            }
        },
        DeckMatchTermination::Draw => {},
        _ => {
            tally.truncated = tally.truncated + 1;
        },
    }
}

} // verus!
