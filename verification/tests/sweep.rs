use cardbench_magic_policies::archetype::Archetype;
use cardbench_magic_policies::deck_match::{DeckMatchConfig, DeckMatchResult, DeckMatchTermination};
use cardbench_magic_policies::planner::board::PlayerId;
use cardbench_magic_policies::roster::{Cell, Entrant, Opponent, Seat, Split, Surface};
use cardbench_magic_policies::sweep::{
    cell_outcome, coverage, find_opponent, paired_mirrors, tally_opponent, Arm, CellOutcome, Coverage, Resampler, BOOTSTRAP_DRAWS, BOOTSTRAP_SEED,
};
use cardbench_magic_policies::versions::PolicyVersion;

fn entrant(label: &str, deck: &str, pilot: PolicyVersion) -> Entrant {
    Entrant { label: label.to_owned(), deck: deck.to_owned(), pilot, archetype: Archetype::Aggro }
}

fn surface(seeds: u32) -> Surface {
    let opponent = |id: &str, deck: &str| Opponent {
        id: id.to_owned(),
        deck: deck.to_owned(),
        pilot: PolicyVersion::V3,
        archetype: Archetype::Midrange,
    };
    Surface {
        split: Split::Train,
        roster_id: "test".to_owned(),
        task_id: "test".to_owned(),
        score_metric: "delta".to_owned(),
        manifest_sha256: None,
        reference: entrant("reference_v1", "deck_ref", PolicyVersion::V5),
        opponents: vec![opponent("opp_a", "deck_x"), opponent("opp_b", "deck_y")],
        seeds,
        candidate_deck_pool: vec!["deck_c".to_owned()],
    }
}

fn ids(cells: &[Cell]) -> Vec<String> {
    cells.iter().map(Cell::cell_id).collect()
}

#[test]
fn a_complete_sweep_covers_every_cell_of_both_arms() {
    let surface = surface(2);
    let candidate = entrant("cand", "deck_c", PolicyVersion::V8);
    let candidate_cells = surface.cells(&candidate);
    let reference_cells = surface.cells(&surface.reference);
    let result = coverage(&surface, &candidate, &candidate_cells, &surface.reference, &reference_cells, vec![]);
    assert_eq!(result.expected, 8);
    assert_eq!(result.candidate_produced, 8);
    assert_eq!(result.reference_produced, 8);
    assert!(result.missing.is_empty() && result.unexpected.is_empty() && result.unpaired.is_empty());
    assert!(result.is_complete());
}

#[test]
fn one_missing_cell_makes_coverage_incomplete() {
    let surface = surface(2);
    let candidate = entrant("cand", "deck_c", PolicyVersion::V8);
    let mut candidate_cells = surface.cells(&candidate);
    let dropped = candidate_cells.remove(3);
    let reference_cells = surface.cells(&surface.reference);
    let result = coverage(&surface, &candidate, &candidate_cells, &surface.reference, &reference_cells, vec![]);
    assert_eq!(result.missing, vec![dropped.cell_id()]);
    assert_eq!(result.candidate_produced, 7);
    assert!(!result.is_complete());
}

#[test]
fn an_unexpected_and_unpaired_cell_is_reported_in_order() {
    let surface = surface(1);
    let candidate = entrant("cand", "deck_c", PolicyVersion::V8);
    let mut candidate_cells = surface.cells(&candidate);
    let mut stray = candidate_cells[0].clone();
    stray.seed = 9;
    candidate_cells.push(stray.clone());
    let reference_cells = surface.cells(&surface.reference);
    let result = coverage(&surface, &candidate, &candidate_cells, &surface.reference, &reference_cells, vec![]);
    assert_eq!(result.unexpected, vec![stray.cell_id()]);
    assert_eq!(result.unpaired, vec![stray.pair_key()]);
    assert!(!result.is_complete());
}

#[test]
fn missing_ids_are_sorted_and_listed_once_per_arm() {
    let surface = surface(2);
    let candidate = entrant("cand", "deck_c", PolicyVersion::V8);
    let reference_cells = surface.cells(&surface.reference);
    let result = coverage(&surface, &candidate, &vec![], &surface.reference, &reference_cells[..4].to_vec(), vec![]);
    let mut candidate_missing = ids(&surface.cells(&candidate));
    candidate_missing.sort();
    let mut reference_missing = ids(&reference_cells[4..]);
    reference_missing.sort();
    let mut expected = candidate_missing;
    expected.extend(reference_missing);
    assert_eq!(result.missing, expected);
    assert_eq!(result.candidate_produced, 0);
    assert_eq!(result.reference_produced, 4);
}

#[test]
fn a_stall_failure_alone_blocks_scoring() {
    let surface = surface(1);
    let candidate = entrant("cand", "deck_c", PolicyVersion::V8);
    let result = coverage(
        &surface,
        &candidate,
        &surface.cells(&candidate),
        &surface.reference,
        &surface.cells(&surface.reference),
        vec!["candidate arm stalled".to_owned()],
    );
    assert!(!result.is_complete());
    assert!(!Coverage::default().is_complete());
}

#[test]
fn the_resampler_is_the_fixed_xorshift_star() {
    let mut generator = Resampler(BOOTSTRAP_SEED);
    let mut mirror = BOOTSTRAP_SEED;
    for bound in [1_usize, 7, 100, 640] {
        mirror ^= mirror >> 12;
        mirror ^= mirror << 25;
        mirror ^= mirror >> 27;
        let expected = (mirror.wrapping_mul(0x2545_F491_4F6C_DD1D) >> 11) as usize % bound;
        assert_eq!(generator.next_index(bound), expected);
        assert_eq!(generator.0, mirror);
    }
    assert_eq!(BOOTSTRAP_DRAWS, 2_000);
}

#[test]
fn the_resampler_is_deterministic() {
    let draw = || {
        let mut generator = Resampler(BOOTSTRAP_SEED);
        (0..32).map(|_| generator.next_index(10)).collect::<Vec<_>>()
    };
    assert_eq!(draw(), draw());
    assert!(draw().iter().all(|index| *index < 10));
}

fn arm(surface: &Surface, entrant: &Entrant, won: impl Fn(&Cell) -> bool) -> Arm {
    Arm {
        entrant: entrant.clone(),
        outcomes: surface
            .cells(entrant)
            .into_iter()
            .map(|cell| {
                let win = won(&cell);
                CellOutcome {
                    cell,
                    won: win,
                    decided: true,
                    drawn: false,
                    stalled: false,
                    turns: 12,
                    rejected_moves: 0,
                    engine_findings: Vec::new(),
                    termination_detail: None,
                }
            })
            .collect(),
    }
}

#[test]
fn every_candidate_cell_pairs_with_the_reference_cell_at_its_coordinate() {
    let surface = surface(3);
    let candidate = entrant("cand", "deck_c", PolicyVersion::V8);
    let candidate_arm = arm(&surface, &candidate, |_| true);
    let reference_arm = arm(&surface, &surface.reference, |_| false);
    let mirrors = paired_mirrors(&candidate_arm.outcomes, &reference_arm.outcomes);
    assert_eq!(mirrors, (0..12).map(Some).collect::<Vec<_>>());
    let mut shorter = reference_arm.outcomes.clone();
    shorter.remove(0);
    assert_eq!(paired_mirrors(&candidate_arm.outcomes, &shorter)[0], None);
}

#[test]
fn an_opponent_tally_counts_seats_draws_stalls_and_mirrors() {
    let surface = surface(2);
    let candidate = entrant("cand", "deck_c", PolicyVersion::V8);
    let mut candidate_arm = arm(&surface, &candidate, |cell| cell.seed == 0);
    candidate_arm.outcomes[3].decided = false;
    candidate_arm.outcomes[3].won = false;
    candidate_arm.outcomes[3].stalled = true;
    candidate_arm.outcomes[3].rejected_moves = 2;
    candidate_arm.outcomes[3].termination_detail = Some("TurnLimit".to_owned());
    let reference_arm = arm(&surface, &surface.reference, |cell| cell.seed == 1);
    let tally = tally_opponent(&candidate_arm.outcomes, &reference_arm.outcomes, "opp_a");
    assert_eq!(tally.cells, 4);
    assert_eq!(tally.decided, 3);
    assert_eq!(tally.wins, 2);
    assert_eq!((tally.play_wins, tally.play_decided), (1, 2));
    assert_eq!((tally.draw_wins, tally.draw_decided), (1, 1));
    assert_eq!(tally.stalls, 1);
    assert_eq!(tally.rejected, 2);
    assert_eq!(tally.stall_details, vec!["TurnLimit".to_owned()]);
    assert_eq!((tally.reference_wins, tally.reference_decided), (2, 4));
    assert!(!candidate_arm.outcomes[3].is_clean());
    assert!(candidate_arm.outcomes[0].is_clean());
    assert_eq!(candidate_arm.stalled_count(), 1);
    assert_eq!(candidate_arm.cells().len(), 8);
    let other = tally_opponent(&candidate_arm.outcomes, &reference_arm.outcomes, "opp_z");
    assert_eq!(other.cells, 0);
}

#[test]
fn a_match_result_becomes_a_cell_outcome_for_the_entrant_seat() {
    let result = |termination| DeckMatchResult {
        id: "m",
        deck_ids: ["a".to_owned(), "b".to_owned()],
        config: DeckMatchConfig::default(),
        termination,
        winner: None,
        life: [0, 0],
        turns: 7,
        attempted_policy_moves: 5,
        accepted_policy_moves: 5,
        engine_findings: vec![],
        event_log: vec![],
        digest: String::new(),
    };
    let surface = surface(1);
    let cell = surface.cells(&surface.reference)[0].clone();
    let won = cell_outcome(cell.clone(), 1, &result(DeckMatchTermination::Winner(PlayerId(1))), "x".to_owned());
    assert!(won.won && won.decided && !won.stalled && won.termination_detail.is_none());
    let lost = cell_outcome(cell.clone(), 0, &result(DeckMatchTermination::Winner(PlayerId(1))), "x".to_owned());
    assert!(!lost.won && lost.decided);
    let stalled = cell_outcome(cell, 0, &result(DeckMatchTermination::MoveLimit { limit: 5 }), "MoveLimit".to_owned());
    assert!(stalled.stalled && !stalled.decided);
    assert_eq!(stalled.termination_detail.as_deref(), Some("MoveLimit"));
    assert_eq!(find_opponent(&surface.opponents, "opp_b"), Ok(1));
    assert_eq!(find_opponent(&surface.opponents, "opp_q").unwrap_err(), "cell names unknown opponent `opp_q`");
}
