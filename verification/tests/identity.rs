use cardbench_magic_policies::archetype::Archetype;
use cardbench_magic_policies::catalog_gauntlet::{is_shock_land, CatalogPolicyProfile};
use cardbench_magic_policies::golgari_attrition::blocker_priority;
use cardbench_magic_policies::planner::combat::Aggression;
use cardbench_magic_policies::versions::{PolicyVersion, REFERENCE_ID, REFERENCE_POLICY_IDS, REFERENCE_VERSION};

#[test]
fn every_archetype_round_trips_through_its_id() {
    for archetype in Archetype::ALL {
        assert_eq!(Archetype::parse(archetype.id()), Some(archetype));
    }
    assert_eq!(Archetype::parse("combo"), None);
}

#[test]
fn archetype_knobs_follow_the_objective() {
    assert_eq!(Archetype::Aggro.aggression(), Aggression::Pressing);
    assert!(Archetype::Burn.burn_goes_face());
    assert!(!Archetype::Control.burn_goes_face());
    assert!(Archetype::Control.life_floor() > Archetype::Aggro.life_floor());
    assert!(Archetype::Control.curve_ceiling() > Archetype::Aggro.curve_ceiling());
}

#[test]
fn every_version_round_trips_and_chains() {
    for version in PolicyVersion::ALL {
        assert_eq!(PolicyVersion::parse(version.id()), Some(version));
    }
    assert_eq!(PolicyVersion::V1.previous(), None);
    assert_eq!(PolicyVersion::V3.previous(), Some(PolicyVersion::V2));
    assert_eq!(PolicyVersion::latest(), PolicyVersion::V8);
    assert_eq!(PolicyVersion::V8.previous(), Some(PolicyVersion::V7));
    assert_eq!(PolicyVersion::V7.previous(), Some(PolicyVersion::V6));
    assert_eq!(PolicyVersion::V6.previous(), Some(PolicyVersion::V5));
    assert_eq!(PolicyVersion::V4.previous(), Some(PolicyVersion::V3));
}

#[test]
fn an_unknown_version_is_not_parsed() {
    assert_eq!(PolicyVersion::parse("v9"), None);
    assert_eq!(PolicyVersion::parse("V1"), None);
    assert_eq!(PolicyVersion::parse(""), None);
}

#[test]
fn reference_v1_does_not_track_latest() {
    assert_ne!(
        REFERENCE_VERSION,
        PolicyVersion::latest(),
        "a reference that follows `latest()` is not frozen"
    );
}

#[test]
fn the_reference_is_the_frozen_v5_generation() {
    assert_eq!(REFERENCE_VERSION, PolicyVersion::V5);
    assert_eq!(REFERENCE_VERSION.id(), "v5");
    assert_eq!(REFERENCE_ID, "reference_v1");
    assert_eq!(REFERENCE_POLICY_IDS.len(), Archetype::ALL.len());
    for id in REFERENCE_POLICY_IDS {
        assert!(id.ends_with(".v5"));
    }
}

#[test]
fn profile_ids_are_distinct_and_versioned() {
    let ids = [
        CatalogPolicyProfile::Pressure,
        CatalogPolicyProfile::Curve,
        CatalogPolicyProfile::Control,
        CatalogPolicyProfile::Graveyard,
        CatalogPolicyProfile::TopEnd,
        CatalogPolicyProfile::Patient,
    ]
    .map(CatalogPolicyProfile::id);
    assert_eq!(ids.into_iter().collect::<std::collections::BTreeSet<_>>().len(), 6);
    assert!(ids.iter().all(|id| id.split('.').next_back() == Some("v1")));
}

#[test]
fn a_profile_id_names_its_strategy() {
    assert_eq!(CatalogPolicyProfile::TopEnd.id(), "rav.catalog-top-end.v1");
    assert_eq!(CatalogPolicyProfile::ALL.len(), 6);
}

#[test]
fn the_four_shock_lands_are_recognised() {
    for id in ["RAV-OVERGROWN-TOMB", "RAV-SACRED-FOUNDRY", "RAV-TEMPLE-GARDEN", "RAV-WATERY-GRAVE"] {
        assert!(is_shock_land(Some(id)));
    }
    assert!(!is_shock_land(Some("RAV-FOREST")));
    assert!(!is_shock_land(None));
}

#[test]
fn brownscale_blocks_first_and_the_wurm_second() {
    assert_eq!(blocker_priority(Some("RAV-GOLGARI-BROWNSCALE")), 0);
    assert_eq!(blocker_priority(Some("RAV-SIEGE-WURM")), 1);
    assert_eq!(blocker_priority(Some("RAV-ELVES")), 2);
    assert_eq!(blocker_priority(None), 2);
}
