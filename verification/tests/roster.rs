use cardbench_magic_policies::archetype::Archetype;
use cardbench_magic_policies::roster::{
    archetype_of, canonical_manifest, failure_message, pilot_of, JsonFailure, resolve_opponents, resolve_surface, Cell, DeckInfo, HeldoutBlock, HeldoutManifest,
    OpponentSpec, ReferenceSpec, RosterFile, SealedManifest, Seat, Split, TrainBlock, HELDOUT_SCHEMA, ROSTER_SCHEMA,
};
use cardbench_magic_policies::versions::PolicyVersion;

fn cell(seat: Seat, seed: u64) -> Cell {
    Cell {
        candidate_deck: "deck_a".to_owned(),
        candidate_pilot: "v8".to_owned(),
        opponent_id: "opp_t1".to_owned(),
        opponent_deck: "deck_b".to_owned(),
        seat,
        seed,
    }
}

#[test]
fn the_pair_key_drops_the_candidate_half_and_the_cell_id_keeps_it() {
    let candidate = cell(Seat::Play, 3);
    let mut reference = candidate.clone();
    reference.candidate_deck = "deck_ref".to_owned();
    reference.candidate_pilot = "v5".to_owned();

    assert_ne!(candidate.cell_id(), reference.cell_id(), "the two arms must not collide in the coverage check");
    assert_eq!(
        candidate.pair_key(),
        reference.pair_key(),
        "the two arms must join on the shared coordinate, or nothing pairs"
    );
    assert_eq!(candidate.pair_key(), "opp_t1|deck_b|p0|3");
}

#[test]
fn seat_and_seed_are_independent_axes() {
    assert_ne!(cell(Seat::Play, 1).pair_key(), cell(Seat::Draw, 1).pair_key());
    assert_ne!(cell(Seat::Play, 1).pair_key(), cell(Seat::Play, 2).pair_key());
    assert_eq!(Seat::Play.index(), 0);
    assert_eq!(Seat::Draw.index(), 1);
}

#[test]
fn the_cell_id_spells_the_whole_coordinate() {
    assert_eq!(cell(Seat::Draw, 120).cell_id(), "deck_a|v8|opp_t1|deck_b|p1|120");
    assert_eq!(Split::parse("heldout"), Some(Split::Heldout));
    assert_eq!(Split::parse("test"), None);
    assert_eq!(Split::Train.id(), "train");
}

fn decks() -> Vec<DeckInfo> {
    let deck = |id: &str, archetype: &str| DeckInfo { id: id.to_owned(), archetype: archetype.to_owned() };
    vec![
        deck("boros", "aggro"),
        deck("golgari", "midrange"),
        deck("dimir", "control"),
        deck("izzet", "burn"),
        deck("plain", ""),
        deck("odd", "combo"),
    ]
}

fn spec(id: &str, pilot: &str, deck: &str) -> OpponentSpec {
    OpponentSpec { id: id.to_owned(), pilot: pilot.to_owned(), deck: deck.to_owned() }
}

fn roster(opponents: Vec<OpponentSpec>, seeds: u32, cell_count: usize) -> RosterFile {
    RosterFile {
        schema_version: ROSTER_SCHEMA.to_owned(),
        roster_id: "code_policy_v1".to_owned(),
        task_id: "cardbench/magic/code_policy".to_owned(),
        reference: ReferenceSpec { id: "reference_v1".to_owned(), pilot: "v5".to_owned(), deck: "boros".to_owned() },
        candidate_deck_pool: vec!["boros".to_owned(), "golgari".to_owned()],
        train: TrainBlock { opponents, seeds, cell_count },
        heldout: HeldoutBlock {
            manifest: ".sealed/code_policy/heldout.json".to_owned(),
            sha256: "abc".to_owned(),
            opponent_count: 1,
            seeds: 2,
            cell_count: 4,
        },
        score_metric: "delta".to_owned(),
    }
}

#[test]
fn a_train_roster_resolves_into_its_surface() {
    let opponents = vec![spec("opp_1", "v3", "golgari"), spec("opp_2", "v4", "dimir")];
    let surface = resolve_surface(roster(opponents, 3, 12), Split::Train, Ok(decks()), None).expect("resolves");
    assert_eq!(surface.opponents.len(), 2);
    assert_eq!(surface.opponents[1].archetype, Archetype::Control);
    assert_eq!(surface.opponents[0].pilot, PolicyVersion::V3);
    assert_eq!(surface.reference.pilot, PolicyVersion::V5);
    assert_eq!(surface.cell_count(), 12);
    let cells = surface.cells(&surface.reference);
    assert_eq!(cells.len(), surface.cell_count());
    let ids: std::collections::BTreeSet<String> = cells.iter().map(Cell::cell_id).collect();
    assert_eq!(ids.len(), surface.cell_count(), "cell ids must be unique or coverage cannot be checked");
    assert_eq!(cells[0].pair_key(), "opp_1|golgari|p0|0");
    assert_eq!(cells[3].pair_key(), "opp_1|golgari|p1|0");
    assert_eq!(cells[6].pair_key(), "opp_2|dimir|p0|0");
    assert!(surface.manifest_sha256.is_none());
}

#[test]
fn a_published_cell_count_that_disagrees_is_refused() {
    let opponents = vec![spec("opp_1", "v3", "golgari")];
    let error = resolve_surface(roster(opponents, 3, 5), Split::Train, Ok(decks()), None).unwrap_err();
    assert_eq!(error, "train surface enumerates 6 cells but the manifest publishes 5");
}

#[test]
fn a_surface_with_zero_seeds_is_refused() {
    let opponents = vec![spec("opp_1", "v3", "golgari")];
    let error = resolve_surface(roster(opponents, 0, 0), Split::Train, Ok(decks()), None).unwrap_err();
    assert_eq!(error, "a surface with zero seeds measures nothing");
}

#[test]
fn a_wrong_roster_schema_is_refused_first() {
    let mut file = roster(vec![spec("opp_1", "v3", "golgari")], 1, 2);
    file.schema_version = "other".to_owned();
    let error = resolve_surface(file, Split::Train, Err("fixtures unreadable".to_owned()), None).unwrap_err();
    assert_eq!(error, format!("roster schema `other` is not `{ROSTER_SCHEMA}`"));
}

#[test]
fn a_fixture_failure_is_reported_after_the_schema() {
    let file = roster(vec![spec("opp_1", "v3", "golgari")], 1, 2);
    let error = resolve_surface(file, Split::Train, Err("fixtures unreadable".to_owned()), None).unwrap_err();
    assert_eq!(error, "fixtures unreadable");
}

#[test]
fn a_moved_reference_is_refused() {
    let mut file = roster(vec![spec("opp_1", "v3", "golgari")], 1, 2);
    file.reference.pilot = "v8".to_owned();
    let error = resolve_surface(file, Split::Train, Ok(decks()), None).unwrap_err();
    assert_eq!(
        error,
        "roster reference `reference_v1`/`v8` does not match the frozen reference `reference_v1`/`v5`; \
         the ranking origin is defined in code, not in the roster"
    );
}

#[test]
fn an_unflyable_pool_deck_is_refused() {
    let mut file = roster(vec![spec("opp_1", "v3", "golgari")], 1, 2);
    file.candidate_deck_pool.push("plain".to_owned());
    let error = resolve_surface(file, Split::Train, Ok(decks()), None).unwrap_err();
    assert_eq!(error, "deck `plain` declares no archetype, so no archetype pilot can fly it");
}

#[test]
fn archetype_resolution_reports_each_failure() {
    let decks = decks();
    assert_eq!(archetype_of(&decks, "izzet"), Ok(Archetype::Burn));
    assert_eq!(archetype_of(&decks, "missing").unwrap_err(), "roster names unknown deck fixture `missing`");
    assert_eq!(archetype_of(&decks, "odd").unwrap_err(), "deck `odd` names unknown archetype `combo`");
}

#[test]
fn an_unknown_pilot_lists_the_known_generations() {
    assert_eq!(pilot_of("v2", "reference"), Ok(PolicyVersion::V2));
    assert_eq!(
        pilot_of("v9", "opponent `opp_1`").unwrap_err(),
        "opponent `opp_1` names unknown pilot `v9`; known: v1 v2 v3 v4 v5 v6 v7 v8"
    );
}

#[test]
fn opponents_resolve_in_order_and_fail_closed() {
    let decks = decks();
    let resolved = resolve_opponents(&vec![spec("a", "v1", "boros"), spec("b", "v2", "izzet")], &decks).expect("ok");
    assert_eq!(resolved.len(), 2);
    assert_eq!(resolved[1].id, "b");
    assert_eq!(
        resolve_opponents(&vec![spec("a", "v1", "boros"), spec("a", "v2", "izzet")], &decks).unwrap_err(),
        "duplicate opponent id `a`"
    );
    assert_eq!(resolve_opponents(&vec![], &decks).unwrap_err(), "roster declares no opponents");
    assert_eq!(
        resolve_opponents(&vec![spec("a", "v0", "boros")], &decks).unwrap_err(),
        "opponent `a` names unknown pilot `v0`; known: v1 v2 v3 v4 v5 v6 v7 v8"
    );
}

fn sealed(digest: &str, manifest: Result<HeldoutManifest, String>) -> Option<Result<SealedManifest, String>> {
    Some(Ok(SealedManifest { digest: digest.to_owned(), manifest }))
}

fn manifest(split: &str, opponents: Vec<OpponentSpec>, seeds: u32, cell_count: usize) -> HeldoutManifest {
    HeldoutManifest { schema_version: HELDOUT_SCHEMA.to_owned(), split: split.to_owned(), opponents, seeds, cell_count }
}

#[test]
fn a_sealed_heldout_surface_resolves_with_its_digest() {
    let file = roster(vec![spec("opp_1", "v3", "golgari")], 1, 2);
    let read = sealed("abc", Ok(manifest("heldout", vec![spec("h1", "v2", "dimir")], 2, 4)));
    let surface = resolve_surface(file, Split::Heldout, Ok(decks()), read).expect("resolves");
    assert_eq!(surface.opponents[0].id, "h1");
    assert_eq!(surface.manifest_sha256.as_deref(), Some("abc"));
    assert_eq!(surface.cell_count(), 4);
}

#[test]
fn a_moved_heldout_manifest_is_refused() {
    let file = roster(vec![spec("opp_1", "v3", "golgari")], 1, 2);
    let read = sealed("def", Err("shape".to_owned()));
    let error = resolve_surface(file, Split::Heldout, Ok(decks()), read).unwrap_err();
    assert_eq!(
        error,
        "sealed heldout manifest sha256 def does not match the committed roster pin abc; \
         the heldout surface moved and no score from it is comparable"
    );
}

#[test]
fn a_heldout_manifest_that_disagrees_with_the_roster_is_refused() {
    let file = || roster(vec![spec("opp_1", "v3", "golgari")], 1, 2);
    let run = |manifest: HeldoutManifest| {
        resolve_surface(file(), Split::Heldout, Ok(decks()), sealed("abc", Ok(manifest))).unwrap_err()
    };
    assert_eq!(
        run(manifest("train", vec![spec("h1", "v2", "dimir")], 2, 4)),
        "sealed manifest declares split `train`, not `heldout`"
    );
    assert_eq!(run(manifest("heldout", vec![], 2, 4)), "sealed manifest has 0 opponents, roster publishes 1");
    assert_eq!(run(manifest("heldout", vec![spec("h1", "v2", "dimir")], 3, 4)), "sealed manifest seeds 3 != roster seeds 2");
    assert_eq!(
        run(manifest("heldout", vec![spec("h1", "v2", "dimir")], 2, 6)),
        "sealed manifest publishes 6 cells, roster pins 4"
    );
    let mut other = manifest("heldout", vec![spec("h1", "v2", "dimir")], 2, 4);
    other.schema_version = "x".to_owned();
    assert_eq!(run(other), format!("sealed manifest schema `x` is not `{HELDOUT_SCHEMA}`"));
    let shape = resolve_surface(file(), Split::Heldout, Ok(decks()), sealed("abc", Err("wrong shape".to_owned())));
    assert_eq!(shape.unwrap_err(), "wrong shape");
    let missing = resolve_surface(file(), Split::Heldout, Ok(decks()), Some(Err("missing".to_owned())));
    assert_eq!(missing.unwrap_err(), "missing");
}

#[test]
fn every_cell_is_played_from_both_seats_on_the_same_seed() {
    let opponents = vec![spec("opp_1", "v3", "golgari"), spec("opp_2", "v4", "dimir")];
    let surface = resolve_surface(roster(opponents, 3, 12), Split::Train, Ok(decks()), None).expect("resolves");
    let cells = surface.cells(&surface.reference);
    for cell in &cells {
        let mut other = cell.clone();
        other.seat = if cell.seat == Seat::Play { Seat::Draw } else { Seat::Play };
        assert!(cells.contains(&other), "{} has no mirror seat", cell.cell_id());
    }
}

#[test]
fn the_sealed_manifest_is_hashed_in_canonical_form() {
    let canonical = canonical_manifest("{\"b\": 1,\n \"a\": [1, 2]}").expect("valid JSON");
    assert_eq!(canonical, "{\"a\":[1,2],\"b\":1}");
}

#[test]
fn a_sealed_manifest_that_is_not_json_is_refused() {
    let message = canonical_manifest("{\"a\": ").unwrap_err();
    assert!(message.starts_with("cannot parse sealed manifest: "), "{message}");
}

#[test]
fn canonicalisation_failures_name_their_step() {
    assert_eq!(
        failure_message(&JsonFailure::NotJson("EOF".to_string())),
        "cannot parse sealed manifest: EOF"
    );
    assert_eq!(
        failure_message(&JsonFailure::NotWritable("bad key".to_string())),
        "cannot canonicalise manifest: bad key"
    );
}
