use cardbench_magic_policies::deck_match::{DeckMatchConfig, DeckMatchResult, DeckMatchTermination, RAV_DECK_MATCH_ID};
use cardbench_magic_policies::ladder::{ladder_pairs, record_game, seat_versions, DeckTally};
use cardbench_magic_policies::matchup::{tally_games, GameRecord};
use cardbench_magic_policies::planner::board::PlayerId;
use cardbench_magic_policies::versions::PolicyVersion;

fn result(termination: DeckMatchTermination, winner: Option<usize>, life: [i64; 2]) -> DeckMatchResult {
    DeckMatchResult {
        id: RAV_DECK_MATCH_ID,
        deck_ids: ["deck_a".to_owned(), "deck_b".to_owned()],
        config: DeckMatchConfig { shuffle_seed: 5, ..DeckMatchConfig::default() },
        termination,
        winner: winner.map(PlayerId),
        life,
        turns: 9,
        attempted_policy_moves: 12,
        accepted_policy_moves: 10,
        engine_findings: vec![],
        event_log: vec![],
        digest: "d".to_owned(),
    }
}

#[test]
fn a_game_record_attributes_the_win_by_seat() {
    let won = GameRecord::from_result(&result(DeckMatchTermination::Winner(PlayerId(1)), Some(1), [0, 7]), 1);
    assert_eq!(won.winner.as_deref(), Some("deck_b"));
    assert_eq!(won.deck_a_won(), Some(true));
    assert!(!won.deck_a_on_the_play());
    assert!(won.decisive);
    assert_eq!(won.rejected_policy_moves, 2);
    let stopped = GameRecord::from_result(&result(DeckMatchTermination::TurnLimit { limit: 120 }, None, [3, 4]), 0);
    assert_eq!(stopped.deck_a_won(), None);
    assert!(!stopped.decisive);
}

#[test]
fn a_tally_splits_games_by_seat_and_outcome() {
    let games = vec![
        GameRecord::from_result(&result(DeckMatchTermination::Winner(PlayerId(0)), Some(0), [6, -2]), 0),
        GameRecord::from_result(&result(DeckMatchTermination::Winner(PlayerId(0)), Some(0), [4, 0]), 1),
        GameRecord::from_result(&result(DeckMatchTermination::Draw, None, [0, 0]), 0),
        GameRecord::from_result(&result(DeckMatchTermination::MoveLimit { limit: 5_000 }, None, [9, 9]), 1),
    ];
    let tally = tally_games(&games);
    assert_eq!(tally.games, 4);
    assert_eq!(tally.decided, 2);
    assert_eq!(tally.wins, 1);
    assert_eq!((tally.play_wins, tally.play_decided), (1, 1));
    assert_eq!((tally.draw_wins, tally.draw_decided), (0, 1));
    assert_eq!(tally.draws, 1);
    assert_eq!(tally.truncated, 1);
    assert_eq!(tally.rejected_moves, 8);
    assert_eq!(tally.turns_total, 36);
    assert_eq!(tally.moves_total, 40);
    assert_eq!(tally.winner_life, 10);
    assert_eq!(tally.loser_life, -2);
}

#[test]
fn the_ladder_climbs_one_generation_at_a_time() {
    let pairs = ladder_pairs();
    assert_eq!(pairs.len(), 7);
    assert_eq!(pairs[0], (PolicyVersion::V2, PolicyVersion::V1));
    assert_eq!(pairs[6], (PolicyVersion::V8, PolicyVersion::V7));
    assert_eq!(seat_versions(PolicyVersion::V3, PolicyVersion::V2, 0), [PolicyVersion::V3, PolicyVersion::V2]);
    assert_eq!(seat_versions(PolicyVersion::V3, PolicyVersion::V2, 1), [PolicyVersion::V2, PolicyVersion::V3]);
}

#[test]
fn a_deck_tally_counts_wins_for_the_challenger_seat_only() {
    let mut tally = DeckTally::new();
    record_game(&mut tally, &result(DeckMatchTermination::Winner(PlayerId(1)), Some(1), [0, 5]), 1);
    record_game(&mut tally, &result(DeckMatchTermination::Winner(PlayerId(1)), Some(1), [0, 5]), 0);
    record_game(&mut tally, &result(DeckMatchTermination::Draw, None, [0, 0]), 0);
    record_game(&mut tally, &result(DeckMatchTermination::InvariantViolation { detail: "x".to_owned() }, None, [1, 1]), 0);
    assert_eq!(tally.games, 4);
    assert_eq!(tally.decided, 2);
    assert_eq!(tally.wins, 1);
    assert_eq!(tally.truncated, 1);
    assert_eq!(tally.rejected, 8);
    assert_eq!(tally.turns, 36);
}
