use cardbench_magic_policies::deck_match::{
    check_match_config, record_move, setup_violation, stop_before_move, GameStatus, MatchLedger, MoveOutcome,
    fail_closed_tournament, invariant_finding, reference_matrix_worker_limit, DeckMatchConfig, DeckMatchResult,
    DeckMatchSweepResult, DeckMatchTermination, EngineFinding, EngineFindingKind, EngineTournamentFailure,
    RAV_DECK_MATCH_ID,
};
use cardbench_magic_policies::development_match::{validate_reference_match_fixture, PolicyMatchResult, REFERENCE_FIXTURE_LINES, REQUIRED_EVENT_MARKERS};
use cardbench_magic_policies::planner::board::PlayerId;

fn result(termination: DeckMatchTermination, findings: Vec<EngineFinding>) -> DeckMatchResult {
    DeckMatchResult {
        id: RAV_DECK_MATCH_ID,
        deck_ids: ["fixture-a".to_owned(), "fixture-b".to_owned()],
        config: DeckMatchConfig::default(),
        termination,
        winner: None,
        life: [0, 0],
        turns: 1,
        attempted_policy_moves: 0,
        accepted_policy_moves: 0,
        engine_findings: findings,
        event_log: vec!["GameEnded { winner: None }".to_owned()],
        digest: "fixture".to_owned(),
    }
}

#[test]
fn reference_matrix_caps_live_workers_instead_of_spawning_one_thread_per_match() {
    assert_eq!(reference_matrix_worker_limit(630, Some(8)), 8);
    assert_eq!(reference_matrix_worker_limit(7, Some(32)), 7);
    assert_eq!(reference_matrix_worker_limit(3, None), 1);
}

#[test]
fn the_worker_limit_is_at_least_one_and_at_most_sixteen() {
    assert_eq!(reference_matrix_worker_limit(0, Some(0)), 1);
    assert_eq!(reference_matrix_worker_limit(100, Some(64)), 16);
    assert_eq!(reference_matrix_worker_limit(0, Some(8)), 1);
}

#[test]
fn fail_closed_tournament_accepts_a_rules_valid_simultaneous_loss_draw() {
    let draw = result(DeckMatchTermination::Draw, vec![]);
    let tournament = fail_closed_tournament("draw-regression", vec![draw], vec![]);
    assert!(tournament.passed(), "{tournament:#?}");
}

#[test]
fn a_bounded_run_and_a_finding_both_fail_the_tournament() {
    let finding = invariant_finding(7, Some(PlayerId(1)), "after move", "zone mismatch");
    assert_eq!(finding.kind, EngineFindingKind::EngineBug);
    assert_eq!(finding.code, "engine-invariant-violation");
    assert_eq!(finding.detail, "after move: zone mismatch");
    let stopped = result(DeckMatchTermination::TurnLimit { limit: 120 }, vec![]);
    let won = result(DeckMatchTermination::Winner(PlayerId(0)), vec![]);
    let tournament = fail_closed_tournament("mixed", vec![won, stopped], vec![finding.clone()]);
    assert!(!tournament.passed());
    assert_eq!(tournament.failures.len(), 2);
    assert_eq!(tournament.failures[0], EngineTournamentFailure::EngineFinding(finding));
    assert_eq!(
        tournament.failures[1],
        EngineTournamentFailure::IncompleteTermination {
            deck_ids: ["fixture-a".to_owned(), "fixture-b".to_owned()],
            shuffle_seed: 73,
            termination: DeckMatchTermination::TurnLimit { limit: 120 },
        }
    );
    assert_eq!(tournament.matches.len(), 2);
}

#[test]
fn the_default_configuration_leaves_room_for_a_decked_game() {
    let config = DeckMatchConfig::default();
    assert_eq!(config.shuffle_seed, 73);
    assert_eq!(config.opening_hand_size, 7);
    assert_eq!(config.max_policy_moves, 5_000);
    assert_eq!(config.max_turns, 120);
}

#[test]
fn a_sweep_passes_only_when_every_seed_completes_cleanly() {
    let clean = DeckMatchSweepResult {
        id: RAV_DECK_MATCH_ID,
        matches: vec![result(DeckMatchTermination::Winner(PlayerId(1)), vec![]), result(DeckMatchTermination::Draw, vec![])],
        engine_findings: vec![],
    };
    assert!(clean.passed());
    assert!(clean.matches[0].is_clean_completion());
    let stalled = DeckMatchSweepResult {
        id: RAV_DECK_MATCH_ID,
        matches: vec![result(DeckMatchTermination::MoveLimit { limit: 5_000 }, vec![])],
        engine_findings: vec![],
    };
    assert!(!stalled.passed());
    let gap = EngineFinding {
        kind: EngineFindingKind::CapabilityGap,
        shuffle_seed: 1,
        player: None,
        code: "gap".to_owned(),
        detail: "unmodelled".to_owned(),
    };
    let reported = result(DeckMatchTermination::Winner(PlayerId(0)), vec![gap]);
    assert!(!reported.is_clean_completion());
}

fn fixture() -> String {
    let mut text = String::new();
    for line in REFERENCE_FIXTURE_LINES {
        text.push_str(line);
        text.push('\n');
    }
    text.push_str("required_events = [");
    for marker in REQUIRED_EVENT_MARKERS {
        text.push_str(&format!("\"{marker}\", "));
    }
    text.push_str("]\n");
    text
}

#[test]
fn the_reference_fixture_check_accepts_a_complete_fixture() {
    assert_eq!(validate_reference_match_fixture(&fixture()), Ok(()));
}

#[test]
fn the_reference_fixture_check_names_what_is_missing() {
    let without_line = fixture().replace("token_count = 3", "token_count = 4");
    assert_eq!(
        validate_reference_match_fixture(&without_line).unwrap_err(),
        "reference_match.toml is missing `token_count = 3`"
    );
    let without_event = fixture().replace("\"ConvokeUsed\"", "ConvokeUsed");
    assert_eq!(
        validate_reference_match_fixture(&without_event).unwrap_err(),
        "reference_match.toml is missing event `ConvokeUsed`"
    );
}

#[test]
fn a_policy_match_record_keeps_its_counts() {
    let record = PolicyMatchResult {
        id: "rav_boros_vs_selesnya_development",
        event_log: vec![],
        digest: "fnv1a64:0fc08a289eba7208".to_owned(),
        life: [23, 17],
        token_count: 3,
        policy_moves: 8,
    };
    assert_eq!(record.clone(), record);
}

#[test]
fn a_degenerate_configuration_is_refused_before_setup() {
    let mut config = DeckMatchConfig::default();
    assert_eq!(check_match_config(&config), Ok(()));
    config.max_turns = 0;
    assert_eq!(check_match_config(&config).unwrap_err(), "full-deck match limits must both be nonzero");
    config.opening_hand_size = 0;
    assert_eq!(check_match_config(&config).unwrap_err(), "full-deck match requires a nonzero opening hand size");
}

#[test]
fn the_loop_stops_on_a_finished_game_before_any_bound() {
    let config = DeckMatchConfig { max_turns: 10, max_policy_moves: 5, ..DeckMatchConfig::default() };
    assert_eq!(stop_before_move(&config, 9, GameStatus::Over(Some(PlayerId(1)))), Some(DeckMatchTermination::Winner(PlayerId(1))));
    assert_eq!(stop_before_move(&config, 0, GameStatus::Over(None)), Some(DeckMatchTermination::Draw));
    assert_eq!(
        stop_before_move(&config, 9, GameStatus::Running { turn: 11 }),
        Some(DeckMatchTermination::TurnLimit { limit: 10 })
    );
    assert_eq!(
        stop_before_move(&config, 5, GameStatus::Running { turn: 10 }),
        Some(DeckMatchTermination::MoveLimit { limit: 5 })
    );
    assert_eq!(stop_before_move(&config, 4, GameStatus::Running { turn: 10 }), None);
}

#[test]
fn a_submitted_move_is_counted_and_judged() {
    let mut ledger = MatchLedger { attempted: 0, accepted: 0, findings: vec![] };
    let accepted = MoveOutcome::Accepted { weakness_code: None };
    assert_eq!(record_move(&mut ledger, 3, PlayerId(0), "rav.p", "PlayLand", accepted), None);
    let report = MoveOutcome::Accepted { weakness_code: Some("gap".to_owned()) };
    assert_eq!(
        record_move(&mut ledger, 3, PlayerId(1), "rav.q", "Report", report),
        Some(DeckMatchTermination::PolicyReportedWeakness { player: PlayerId(1), policy: "rav.q".to_owned(), code: "gap".to_owned() })
    );
    assert_eq!((ledger.attempted, ledger.accepted), (2, 2));
    let refused = MoveOutcome::Rejected { error: "no mana".to_owned(), invariant: None };
    assert_eq!(
        record_move(&mut ledger, 3, PlayerId(0), "rav.p", "Cast", refused),
        Some(DeckMatchTermination::PolicyMoveRejected {
            player: PlayerId(0),
            policy: "rav.p".to_owned(),
            kind: "Cast".to_owned(),
            error: "no mana".to_owned(),
        })
    );
    assert!(ledger.findings.is_empty(), "a rejection alone is not an engine finding");
    let broken = MoveOutcome::Rejected { error: "no mana".to_owned(), invariant: Some("zone leak".to_owned()) };
    assert_eq!(
        record_move(&mut ledger, 3, PlayerId(0), "rav.p", "Cast", broken),
        Some(DeckMatchTermination::InvariantViolation {
            detail: "engine rejected Cast from `rav.p` with `no mana` and then violated invariants: zone leak".to_owned()
        })
    );
    assert_eq!(ledger.findings.len(), 1);
    assert_eq!(ledger.findings[0].detail, "after rejected policy move: zone leak");
    assert_eq!((ledger.attempted, ledger.accepted), (4, 2));
    let (finding, termination) = setup_violation(9, "bad library");
    assert_eq!(finding.player, None);
    assert_eq!(termination, DeckMatchTermination::InvariantViolation { detail: "after deck setup: bad library".to_owned() });
}
