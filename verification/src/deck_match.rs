//! Records of deterministic whole-deck development matches, and the
//! fail-closed rules that judge them.
//!
//! Policy errors and development limits are recorded as match terminations,
//! never misrepresented as engine weaknesses. Only an invariant failure or a
//! policy's explicit weakness report produces an engine finding.

use vstd::prelude::*;
use crate::planner::board::PlayerId;
use crate::text::push_text;

verus! {

/// Stable identifier for the public two-deck development match.
pub const RAV_DECK_MATCH_ID: &'static str = "rav_boros_vs_selesnya_full_deck";

/// Stable identifier for the all-reference-deck, ordered policy matrix.
pub const RAV_REFERENCE_DECK_MATRIX_ID: &'static str = "rav_reference_deck_policy_matrix";

/// Limits and deterministic setup for one full-deck policy development match.
#[derive(Clone, Copy, Debug, PartialEq, Eq, Structural)]
pub struct DeckMatchConfig {
    /// Seed consumed in player order while the two libraries are shuffled.
    pub shuffle_seed: u64,
    /// Number of cards drawn by each player before the first turn.
    pub opening_hand_size: u8,
    /// Accepted policy moves allowed before the runner stops a bounded development run.
    pub max_policy_moves: u32,
    /// Turns allowed before the runner stops a bounded development run.
    pub max_turns: u32,
}

impl Default for DeckMatchConfig {
    /// Seed 73, seven-card hands, five thousand moves and a hundred and
    /// twenty turns: a sixty-card two-player game can legitimately reach turn
    /// 108 before a player loses to an empty library, so the turn bound
    /// leaves room for that fail-closed result.
    fn default() -> (config: Self)
        ensures
            config == (DeckMatchConfig {
                shuffle_seed: 73,
                opening_hand_size: 7,
                max_policy_moves: 5_000,
                max_turns: 120,
            }),
    {
        DeckMatchConfig { shuffle_seed: 73, opening_hand_size: 7, max_policy_moves: 5_000, max_turns: 120 }
    }
}

/// Why a full-deck match stopped.
#[derive(Clone, Debug, PartialEq, Eq)]
pub enum DeckMatchTermination {
    /// State-based actions left exactly one player in the game.
    Winner(PlayerId),
    /// State-based actions removed every player simultaneously. This is a
    /// valid completed draw, not an engine or policy failure.
    Draw,
    /// The runner stopped a non-terminal game before another move could be accepted.
    MoveLimit { limit: u32 },
    /// The runner stopped a non-terminal game before another turn could start.
    TurnLimit { limit: u32 },
    /// A policy emitted an explicit capability-gap report through the engine.
    PolicyReportedWeakness { player: PlayerId, policy: String, code: String },
    /// An otherwise valid game state rejected the policy's proposed action;
    /// `kind` names the kind of move that was proposed.
    PolicyMoveRejected { player: PlayerId, policy: String, kind: String, error: String },
    /// The runner found an invariant violation after a setup or policy move.
    InvariantViolation { detail: String },
}

/// A rules-valid terminal state: a winner, or a simultaneous-loss draw.
pub open spec fn is_terminal(termination: DeckMatchTermination) -> bool {
    termination is Winner || termination is Draw
}

/// A copy of a termination, field for field.
pub fn copy_termination(termination: &DeckMatchTermination) -> (copy: DeckMatchTermination)
    ensures
        copy == *termination,
{
    match termination {
        DeckMatchTermination::Winner(player) => DeckMatchTermination::Winner(*player),
        DeckMatchTermination::Draw => DeckMatchTermination::Draw,
        DeckMatchTermination::MoveLimit { limit } => DeckMatchTermination::MoveLimit { limit: *limit },
        DeckMatchTermination::TurnLimit { limit } => DeckMatchTermination::TurnLimit { limit: *limit },
        DeckMatchTermination::PolicyReportedWeakness { player, policy, code } => {
            DeckMatchTermination::PolicyReportedWeakness {
                player: *player,
                policy: policy.clone(),
                code: code.clone(),
            }
        },
        DeckMatchTermination::PolicyMoveRejected { player, policy, kind, error } => {
            DeckMatchTermination::PolicyMoveRejected {
                player: *player,
                policy: policy.clone(),
                kind: kind.clone(),
                error: error.clone(),
            }
        },
        DeckMatchTermination::InvariantViolation { detail } => {
            DeckMatchTermination::InvariantViolation { detail: detail.clone() }
        },
    }
}

/// Classification deliberately reserved for evidence about the engine itself.
#[derive(Clone, Copy, Debug, PartialEq, Eq, Structural)]
pub enum EngineFindingKind {
    /// The engine violated one of its own public state invariants.
    EngineBug,
    /// A policy explicitly encountered a rules capability the engine does not model.
    CapabilityGap,
}

/// A reproducible finding about engine behavior, separated from ordinary
/// policy or harness outcomes.
#[derive(Clone, Debug, PartialEq, Eq)]
pub struct EngineFinding {
    pub kind: EngineFindingKind,
    pub shuffle_seed: u64,
    pub player: Option<PlayerId>,
    pub code: String,
    pub detail: String,
}

/// The finding an invariant violation produces: an engine bug whose detail
/// is the context, a colon, and the engine's error.
pub fn invariant_finding(shuffle_seed: u64, player: Option<PlayerId>, context: &str, error: &str) -> (finding:
    EngineFinding)
    ensures
        finding.kind == EngineFindingKind::EngineBug,
        finding.shuffle_seed == shuffle_seed,
        finding.player == player,
        finding.code@ == "engine-invariant-violation"@,
        finding.detail@ == context@ + ": "@ + error@,
{
    let mut detail = String::new();
    push_text(&mut detail, context);
    push_text(&mut detail, ": ");
    push_text(&mut detail, error);
    EngineFinding {
        kind: EngineFindingKind::EngineBug,
        shuffle_seed,
        player,
        code: "engine-invariant-violation".to_owned(),
        detail,
    }
}

/// Complete, deterministic record of a full-deck development match.
#[derive(Clone, Debug, PartialEq, Eq)]
pub struct DeckMatchResult {
    pub id: &'static str,
    /// Public fixtures seated as player zero and player one for this trace.
    pub deck_ids: [String; 2],
    pub config: DeckMatchConfig,
    pub termination: DeckMatchTermination,
    pub winner: Option<PlayerId>,
    pub life: [i64; 2],
    pub turns: u32,
    /// Number of policy proposals attempted by the match runner.
    pub attempted_policy_moves: u32,
    /// Number of proposals the engine accepted and recorded.
    pub accepted_policy_moves: u32,
    pub engine_findings: Vec<EngineFinding>,
    pub event_log: Vec<String>,
    pub digest: String,
}

/// A match that reached a rules-valid terminal state with no engine finding.
pub open spec fn is_clean(result: DeckMatchResult) -> bool {
    is_terminal(result.termination) && result.engine_findings@.len() == 0
}

impl DeckMatchResult {
    /// `true` only when the game reached a rules-valid terminal state and no
    /// engine finding was reported. A simultaneous-loss draw is terminal and
    /// therefore clean just like a winner.
    pub fn is_clean_completion(&self) -> (clean: bool)
        ensures
            clean == is_clean(*self),
    {
        let terminal = match self.termination {
            DeckMatchTermination::Winner(_) => true,
            DeckMatchTermination::Draw => true,
            _ => false,
        };
        terminal && self.engine_findings.len() == 0
    }
}

/// Aggregate outcome of replaying the same public match across deterministic seeds.
#[derive(Clone, Debug, PartialEq, Eq)]
pub struct DeckMatchSweepResult {
    pub id: &'static str,
    pub matches: Vec<DeckMatchResult>,
    pub engine_findings: Vec<EngineFinding>,
}

impl DeckMatchSweepResult {
    /// Fail-closed when consumed as a campaign: every seed must terminate
    /// with a winner or rules-valid draw and no finding may be present.
    pub fn passed(&self) -> (passed: bool)
        ensures
            passed == (self.engine_findings@.len() == 0 && forall|i: int|
                0 <= i < self.matches@.len() ==> #[trigger] is_clean(self.matches@[i])),
    {
        if self.engine_findings.len() != 0 {
            return false;
        }
        let mut i: usize = 0;
        while i < self.matches.len()
            invariant
                i <= self.matches@.len(),
                forall|k: int| 0 <= k < i ==> #[trigger] is_clean(self.matches@[k]),
            decreases self.matches@.len() - i,
        {
            if !self.matches[i].is_clean_completion() {
                return false;
            }
            i = i + 1;
        }
        true
    }
}

/// An incomplete full-deck probe, deliberately retaining policy failures
/// separately from actual engine findings so triage is honest.
#[derive(Clone, Debug, PartialEq, Eq)]
pub enum EngineTournamentFailure {
    EngineFinding(EngineFinding),
    IncompleteTermination { deck_ids: [String; 2], shuffle_seed: u64, termination: DeckMatchTermination },
}

/// A fail-closed public engine probe. It rejects any invariant finding,
/// capability gap, policy rejection, or bounded incomplete run. A
/// rules-valid draw is a completed game.
#[derive(Clone, Debug, PartialEq, Eq)]
pub struct EngineTournamentResult {
    pub id: &'static str,
    pub matches: Vec<DeckMatchResult>,
    pub failures: Vec<EngineTournamentFailure>,
}

impl EngineTournamentResult {
    /// A tournament passes when nothing failed.
    pub fn passed(&self) -> (passed: bool)
        ensures
            passed == (self.failures@.len() == 0),
    {
        self.failures.len() == 0
    }
}

/// The failure a non-terminal match contributes.
pub open spec fn incomplete(result: DeckMatchResult) -> EngineTournamentFailure {
    EngineTournamentFailure::IncompleteTermination {
        deck_ids: result.deck_ids,
        shuffle_seed: result.config.shuffle_seed,
        termination: result.termination,
    }
}

/// The failures of the first `n` matches: one for each that did not reach a
/// rules-valid terminal state, in match order.
pub open spec fn incomplete_failures(matches: Seq<DeckMatchResult>, n: int) -> Seq<EngineTournamentFailure>
    decreases n,
{
    if n <= 0 {
        Seq::empty()
    } else if is_terminal(matches[n - 1].termination) {
        incomplete_failures(matches, n - 1)
    } else {
        incomplete_failures(matches, n - 1).push(incomplete(matches[n - 1]))
    }
}

/// No failure comes from the first `n` matches exactly when each of them
/// reached a rules-valid terminal state.
proof fn lemma_no_incomplete_failures(matches: Seq<DeckMatchResult>, n: int)
    requires
        0 <= n <= matches.len(),
    ensures
        incomplete_failures(matches, n).len() == 0 <==> forall|i: int|
            0 <= i < n ==> #[trigger] is_terminal(matches[i].termination),
    decreases n,
{
    if n > 0 {
        lemma_no_incomplete_failures(matches, n - 1);
    }
}

/// Judges a set of matches fail-closed: every engine finding is a failure,
/// in order, followed by one failure for each match that did not reach a
/// rules-valid terminal state. The tournament passes exactly when there
/// were no findings and every match ended in a winner or a draw.
pub fn fail_closed_tournament(
    id: &'static str,
    matches: Vec<DeckMatchResult>,
    engine_findings: Vec<EngineFinding>,
) -> (tournament: EngineTournamentResult)
    ensures
        tournament.id == id,
        tournament.matches@ == matches@,
        tournament.failures@ == engine_findings@.map_values(
            |finding: EngineFinding| EngineTournamentFailure::EngineFinding(finding),
        ) + incomplete_failures(matches@, matches@.len() as int),
        tournament.failures@.len() == 0 <==> (engine_findings@.len() == 0 && forall|i: int|
            0 <= i < matches@.len() ==> #[trigger] is_terminal(matches@[i].termination)),
{
    let mut failures: Vec<EngineTournamentFailure> = Vec::new();
    let mut findings = engine_findings;
    let ghost all_findings = findings@;
    let ghost converted = all_findings.map_values(
        |finding: EngineFinding| EngineTournamentFailure::EngineFinding(finding),
    );
    while findings.len() > 0
        invariant
            all_findings.len() == failures@.len() + findings@.len(),
            failures@ == converted.take(failures@.len() as int),
            findings@ == all_findings.skip(failures@.len() as int),
            converted == all_findings.map_values(
                |finding: EngineFinding| EngineTournamentFailure::EngineFinding(finding),
            ),
        decreases findings@.len(),
    {
        let ghost done = failures@.len() as int;
        assert(findings@[0] == all_findings[done]);
        let finding = findings.remove(0);
        failures.push(EngineTournamentFailure::EngineFinding(finding));
        proof {
            assert(converted[done] == EngineTournamentFailure::EngineFinding(all_findings[done]));
            assert(failures@ =~= converted.take(failures@.len() as int));
            assert(findings@ =~= all_findings.skip(failures@.len() as int));
        }
    }
    assert(failures@ =~= converted);
    let mut i: usize = 0;
    while i < matches.len()
        invariant
            i <= matches@.len(),
            failures@ == converted + incomplete_failures(matches@, i as int),
            converted == all_findings.map_values(
                |finding: EngineFinding| EngineTournamentFailure::EngineFinding(finding),
            ),
        decreases matches@.len() - i,
    {
        let result = &matches[i];
        let terminal = match result.termination {
            DeckMatchTermination::Winner(_) => true,
            DeckMatchTermination::Draw => true,
            _ => false,
        };
        if !terminal {
            let failure = EngineTournamentFailure::IncompleteTermination {
                deck_ids: [result.deck_ids[0].clone(), result.deck_ids[1].clone()],
                shuffle_seed: result.config.shuffle_seed,
                termination: copy_termination(&result.termination),
            };
            proof {
                assert(failure == incomplete(matches@[i as int])) by {
                    assert(failure->deck_ids =~= result.deck_ids);
                }
            }
            failures.push(failure);
            assert(failures@ =~= converted + incomplete_failures(matches@, i + 1));
        } else {
            assert(incomplete_failures(matches@, i + 1) == incomplete_failures(matches@, i as int));
        }
        i = i + 1;
    }
    proof {
        lemma_no_incomplete_failures(matches@, matches@.len() as int);
    }
    EngineTournamentResult { id, matches, failures }
}

/// Live workers are never more than this, whatever the machine offers.
pub const MAX_REFERENCE_MATRIX_WORKERS: usize = 16;

/// How many workers the reference matrix runs at once: the machine's
/// parallelism (one when unknown) clamped to between one and sixteen, and
/// never more than there are jobs, though always at least one.
pub open spec fn worker_limit_view(job_count: usize, parallelism: Option<usize>) -> usize {
    let offered = match parallelism {
        Some(count) => count,
        None => 1,
    };
    let available = if offered < 1 {
        1
    } else if offered > MAX_REFERENCE_MATRIX_WORKERS {
        MAX_REFERENCE_MATRIX_WORKERS
    } else {
        offered
    };
    let jobs = if job_count < 1 {
        1
    } else {
        job_count
    };
    if jobs < available {
        jobs
    } else {
        available
    }
}

/// The number of live workers for `job_count` matches on a machine that
/// offers `parallelism`.
pub fn reference_matrix_worker_limit(job_count: usize, parallelism: Option<usize>) -> (limit: usize)
    ensures
        limit == worker_limit_view(job_count, parallelism),
        1 <= limit <= MAX_REFERENCE_MATRIX_WORKERS,
        job_count >= 1 ==> limit <= job_count,
{
    let offered = match parallelism {
        Some(count) => count,
        None => 1,
    };
    let available = if offered < 1 {
        1
    } else if offered > MAX_REFERENCE_MATRIX_WORKERS {
        MAX_REFERENCE_MATRIX_WORKERS
    } else {
        offered
    };
    let jobs = if job_count < 1 {
        1
    } else {
        job_count
    };
    if jobs < available {
        jobs
    } else {
        available
    }
}


// ---------------------------------------------------------------------------
// The decisions of the match loop
// ---------------------------------------------------------------------------

pub open spec fn hand_size_message() -> Seq<char> {
    "full-deck match requires a nonzero opening hand size"@
}

pub open spec fn limits_message() -> Seq<char> {
    "full-deck match limits must both be nonzero"@
}

/// Refuses a degenerate configuration before any game is set up: an empty
/// opening hand first, then a zero move or turn limit.
pub fn check_match_config(config: &DeckMatchConfig) -> (checked: Result<(), String>)
    ensures
        match checked {
            Ok(()) => config.opening_hand_size != 0 && config.max_policy_moves != 0 && config.max_turns != 0,
            Err(message) => if config.opening_hand_size == 0 {
                message@ == hand_size_message()
            } else {
                (config.max_policy_moves == 0 || config.max_turns == 0) && message@ == limits_message()
            },
        },
{
    if config.opening_hand_size == 0 {
        return Err("full-deck match requires a nonzero opening hand size".to_owned());
    }
    if config.max_policy_moves == 0 || config.max_turns == 0 {
        return Err("full-deck match limits must both be nonzero".to_owned());
    }
    Ok(())
}

/// What the runner sees of a game before asking for the next move.
#[derive(Clone, Copy, Debug, PartialEq, Eq, Structural)]
pub enum GameStatus {
    /// The game is over, with its winner if one player is left.
    Over(Option<PlayerId>),
    /// The game goes on, in this turn.
    Running { turn: u32 },
}

/// Whether to stop before the next move: a finished game ends with its
/// winner or as a draw; otherwise the turn bound is checked before the move
/// bound.
pub open spec fn stop_view(config: DeckMatchConfig, accepted: u32, status: GameStatus) -> Option<DeckMatchTermination> {
    match status {
        GameStatus::Over(Some(winner)) => Some(DeckMatchTermination::Winner(winner)),
        GameStatus::Over(None) => Some(DeckMatchTermination::Draw),
        GameStatus::Running { turn } => if turn > config.max_turns {
            Some(DeckMatchTermination::TurnLimit { limit: config.max_turns })
        } else if accepted >= config.max_policy_moves {
            Some(DeckMatchTermination::MoveLimit { limit: config.max_policy_moves })
        } else {
            None
        },
    }
}

/// Decides whether the match stops before the next move.
pub fn stop_before_move(config: &DeckMatchConfig, accepted: u32, status: GameStatus) -> (stop: Option<
    DeckMatchTermination,
>)
    ensures
        stop == stop_view(*config, accepted, status),
{
    match status {
        GameStatus::Over(Some(winner)) => Some(DeckMatchTermination::Winner(winner)),
        GameStatus::Over(None) => Some(DeckMatchTermination::Draw),
        GameStatus::Running { turn } => if turn > config.max_turns {
            Some(DeckMatchTermination::TurnLimit { limit: config.max_turns })
        } else if accepted >= config.max_policy_moves {
            Some(DeckMatchTermination::MoveLimit { limit: config.max_policy_moves })
        } else {
            None
        },
    }
}

/// How the engine answered one submitted move.
#[derive(Clone, Debug, PartialEq, Eq)]
pub enum MoveOutcome {
    /// Accepted; the move reported an engine weakness with this code, if it
    /// was such a report.
    Accepted { weakness_code: Option<String> },
    /// Refused with this error; then the engine's invariants failed with
    /// this error, if they did.
    Rejected { error: String, invariant: Option<String> },
}

/// What the runner has counted so far.
#[derive(Clone, Debug, PartialEq, Eq)]
pub struct MatchLedger {
    /// Policy proposals attempted.
    pub attempted: u32,
    /// Proposals the engine accepted and recorded.
    pub accepted: u32,
    pub findings: Vec<EngineFinding>,
}

/// The finding and termination an invariant failure right after setup gives.
pub fn setup_violation(shuffle_seed: u64, error: &str) -> (stopped: (EngineFinding, DeckMatchTermination))
    ensures
        stopped.0.kind == EngineFindingKind::EngineBug,
        stopped.0.shuffle_seed == shuffle_seed,
        stopped.0.player is None,
        stopped.0.code@ == "engine-invariant-violation"@,
        stopped.0.detail@ == "after deck setup"@ + ": "@ + error@,
        stopped.1 is InvariantViolation,
        stopped.1->detail@ == "after deck setup: "@ + error@,
{
    let finding = invariant_finding(shuffle_seed, None, "after deck setup", error);
    let mut detail = String::new();
    push_text(&mut detail, "after deck setup: ");
    push_text(&mut detail, error);
    (finding, DeckMatchTermination::InvariantViolation { detail })
}

pub open spec fn violated_after_rejection_message(
    kind: Seq<char>,
    policy: Seq<char>,
    error: Seq<char>,
    invariant: Seq<char>,
) -> Seq<char> {
    "engine rejected "@ + kind + " from `"@ + policy + "` with `"@ + error + "` and then violated invariants: "@
        + invariant
}

/// Records one submitted move of `player`'s policy `policy`, of kind
/// `kind`, and decides whether the match stops there. Every submission is
/// an attempt; an accepted one counts as accepted and stops the match only
/// when it reported an engine weakness; a rejected one stops it, as an
/// invariant violation with a finding when the engine's invariants then
/// failed, else as a rejected move.
pub fn record_move(
    ledger: &mut MatchLedger,
    shuffle_seed: u64,
    player: PlayerId,
    policy: &str,
    kind: &str,
    outcome: MoveOutcome,
) -> (stop: Option<DeckMatchTermination>)
    requires
        old(ledger).attempted < u32::MAX,
        old(ledger).accepted < u32::MAX,
    ensures
        final(ledger).attempted == old(ledger).attempted + 1,
        match outcome {
            MoveOutcome::Accepted { weakness_code } => {
                &&& final(ledger).accepted == old(ledger).accepted + 1
                &&& final(ledger).findings@ == old(ledger).findings@
                &&& match weakness_code {
                    Some(code) => stop is Some && stop->Some_0 is PolicyReportedWeakness
                        && stop->Some_0->PolicyReportedWeakness_player == player
                        && stop->Some_0->PolicyReportedWeakness_policy@ == policy@
                        && stop->Some_0->PolicyReportedWeakness_code@ == code@,
                    None => stop is None,
                }
            },
            MoveOutcome::Rejected { error, invariant } => {
                &&& final(ledger).accepted == old(ledger).accepted
                &&& stop is Some
                &&& match invariant {
                    Some(failure) => {
                        &&& final(ledger).findings@.len() == old(ledger).findings@.len() + 1
                        &&& final(ledger).findings@.take(old(ledger).findings@.len() as int) == old(ledger).findings@
                        &&& final(ledger).findings@.last().kind == EngineFindingKind::EngineBug
                        &&& final(ledger).findings@.last().shuffle_seed == shuffle_seed
                        &&& final(ledger).findings@.last().player == Some(player)
                        &&& final(ledger).findings@.last().code@ == "engine-invariant-violation"@
                        &&& final(ledger).findings@.last().detail@ == "after rejected policy move"@ + ": "@
                            + failure@
                        &&& stop->Some_0 is InvariantViolation
                        &&& stop->Some_0->detail@ == violated_after_rejection_message(
                            kind@,
                            policy@,
                            error@,
                            failure@,
                        )
                    },
                    None => {
                        &&& final(ledger).findings@ == old(ledger).findings@
                        &&& stop->Some_0 is PolicyMoveRejected
                        &&& stop->Some_0->PolicyMoveRejected_player == player
                        &&& stop->Some_0->PolicyMoveRejected_policy@ == policy@
                        &&& stop->Some_0->kind@ == kind@
                        &&& stop->Some_0->error@ == error@
                    },
                }
            },
        },
{
    ledger.attempted = ledger.attempted + 1;
    match outcome {
        MoveOutcome::Accepted { weakness_code } => {
            ledger.accepted = ledger.accepted + 1;
            match weakness_code {
                Some(code) => Some(
                    DeckMatchTermination::PolicyReportedWeakness { player, policy: policy.to_owned(), code },
                ),
                None => None,
            }
        },
        MoveOutcome::Rejected { error, invariant } => match invariant {
            Some(failure) => {
                let finding = invariant_finding(shuffle_seed, Some(player), "after rejected policy move", failure.as_str());
                let ghost before = ledger.findings@;
                ledger.findings.push(finding);
                assert(ledger.findings@.take(before.len() as int) =~= before);
                let mut detail = String::new();
                push_text(&mut detail, "engine rejected ");
                push_text(&mut detail, kind);
                push_text(&mut detail, " from `");
                push_text(&mut detail, policy);
                push_text(&mut detail, "` with `");
                push_text(&mut detail, error.as_str());
                push_text(&mut detail, "` and then violated invariants: ");
                push_text(&mut detail, failure.as_str());
                Some(DeckMatchTermination::InvariantViolation { detail })
            },
            None => Some(
                DeckMatchTermination::PolicyMoveRejected {
                    player,
                    policy: policy.to_owned(),
                    kind: kind.to_owned(),
                    error,
                },
            ),
        },
    }
}

} // verus!
