use cardbench_magic_policies::cli::{
    configured_policy_matrix_seed_count, elo_path, file_component, ladder_pair_count, matrix_seed_count, named_pair,
    parse_hillclimb_options, usage, HillclimbCommand, HillclimbOptions,
};
use cardbench_magic_policies::versions::PolicyVersion;

fn args(items: &[&str]) -> Vec<String> {
    items.iter().map(|item| (*item).to_owned()).collect()
}

#[test]
fn the_hillclimb_reads_counts_candidates_and_ledgers() {
    assert_eq!(
        parse_hillclimb_options(&args(&[])),
        Ok(HillclimbCommand::Run(HillclimbOptions { pairs: 10, requested: None, elo_path: None }))
    );
    assert_eq!(
        parse_hillclimb_options(&args(&["4", "deck_x", "--elo", "ledger.json"])),
        Ok(HillclimbCommand::Run(HillclimbOptions {
            pairs: 4,
            requested: Some("deck_x".to_owned()),
            elo_path: Some("ledger.json".to_owned()),
        }))
    );
    assert_eq!(
        parse_hillclimb_options(&args(&["--elo=a.json", "+7"])),
        Ok(HillclimbCommand::Run(HillclimbOptions { pairs: 7, requested: None, elo_path: Some("a.json".to_owned()) }))
    );
    assert_eq!(parse_hillclimb_options(&args(&["4", "-h", "--bogus"])), Ok(HillclimbCommand::Help));
}

#[test]
fn the_hillclimb_refuses_what_it_cannot_read() {
    assert_eq!(parse_hillclimb_options(&args(&["--elo"])).unwrap_err(), "--elo requires a ledger path");
    assert_eq!(parse_hillclimb_options(&args(&["--elo="])).unwrap_err(), "--elo requires a ledger path");
    assert_eq!(parse_hillclimb_options(&args(&["--fast"])).unwrap_err(), "unknown option `--fast`");
    assert_eq!(parse_hillclimb_options(&args(&["1", "2", "3"])).unwrap_err(), "too many positional arguments");
    let error = parse_hillclimb_options(&args(&["ten"])).unwrap_err();
    assert!(error.starts_with("invalid seed-pair count `ten`: "), "{error}");
    assert!(parse_hillclimb_options(&args(&["4294967296"])).is_err());
    assert!(usage().starts_with("usage: rav-deck-hillclimb"));
}

#[test]
fn the_ladder_reads_its_ledger_and_named_pair() {
    assert_eq!(elo_path(&args(&["25"])), Ok(None));
    assert_eq!(elo_path(&args(&["25", "--elo", "a", "--elo=b"])), Ok(Some("b".to_owned())));
    assert_eq!(elo_path(&args(&["25", "--elo"])).unwrap_err(), "--elo requires a ledger path");
    assert_eq!(named_pair(&args(&["25", "v3"])), Ok(None));
    assert_eq!(named_pair(&args(&["25", "v3", "v2"])), Ok(Some((PolicyVersion::V3, PolicyVersion::V2))));
    assert_eq!(
        named_pair(&args(&["25", "v3", "v12"])).unwrap_err(),
        "unknown policy version `v12`; known: v1 v2 v3 v4 v5 v6 v7 v8"
    );
    assert_eq!(ladder_pair_count(Some("40")), 40);
    assert_eq!(ladder_pair_count(Some("forty")), 25);
    assert_eq!(ladder_pair_count(None), 25);
}

#[test]
fn seed_counts_fall_back_or_refuse_as_configured() {
    assert_eq!(configured_policy_matrix_seed_count(None), 1);
    assert_eq!(configured_policy_matrix_seed_count(Some("0")), 1);
    assert_eq!(configured_policy_matrix_seed_count(Some("12")), 12);
    assert_eq!(matrix_seed_count(None), Some(8));
    assert_eq!(matrix_seed_count(Some("3")), Some(3));
    assert_eq!(matrix_seed_count(Some("0")), None);
    assert_eq!(matrix_seed_count(Some("x")), None);
}

#[test]
fn file_components_keep_only_safe_characters() {
    assert_eq!(file_component("rav_boros-helix"), "rav_boros-helix");
    assert_eq!(file_component("a/b c.toml"), "a_b_c_toml");
    assert_eq!(file_component("é"), "_");
}

#[test]
fn seed_counts_read_plus_signs_and_refuse_overflow() {
    assert_eq!(matrix_seed_count(Some("+4")), Some(4));
    assert_eq!(matrix_seed_count(Some("+")), None);
    assert_eq!(matrix_seed_count(Some("")), None);
    assert_eq!(matrix_seed_count(Some("18446744073709551615")), Some(u64::MAX));
    assert_eq!(matrix_seed_count(Some("18446744073709551616")), None);
    assert_eq!(matrix_seed_count(Some("1 2")), None);
    assert_eq!(configured_policy_matrix_seed_count(Some("99999999999999999999")), 1);
}
