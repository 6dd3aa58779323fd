use cardbench_magic_policies::catalog_gauntlet::{conservative_pending_decision, CatalogPolicyProfile, RavCatalogPolicy};
use cardbench_magic_policies::planner::board::{CardType, Color, LandType, ObjectId, PlayerId, Step, Target};
use cardbench_magic_policies::golgari_attrition::GolgariAttritionPolicy;
use cardbench_magic_policies::policies::boros_char_control::BorosCharControlPolicy;
use cardbench_magic_policies::policies::boros_convoke_burn::BorosConvokeBurnPolicy;
use cardbench_magic_policies::policies::boros_radiance_assault::BorosRadianceAssaultPolicy;
use cardbench_magic_policies::policies::dimir_transmute_attrition::DimirTransmuteAttritionPolicy;
use cardbench_magic_policies::policies::golgari_dredge_grind::GolgariDredgeGrindPolicy;
use cardbench_magic_policies::policies::golgari_wurm_press::GolgariWurmPressPolicy;
use cardbench_magic_policies::policies::boros_tempo::BorosTempoPolicy;
use cardbench_magic_policies::policies::boros_token_rally::BorosTokenRallyPolicy;
use cardbench_magic_policies::policies::dimir_transmute_convoke::DimirTransmuteConvokePolicy;
use cardbench_magic_policies::policies::view::{
    CardView, CastRequest, CombatBlock, ConvokeContribution, DecisionId, DecisionKind, DecisionSelection,
    CatalogFacts, GameView, LibrarySearchChoice, OptionalTriggerChoice, PendingDecision, PolicyAction, PrivateLibraryChoice, PrivateOpponentLibraryChoice,
    TransmuteSearch,
};
use cardbench_magic_policies::CodePolicy;

fn card(id: u64, definition: &'static str, types: Vec<CardType>) -> CardView {
    CardView {
        id: ObjectId(id),
        definition: Some(definition),
        tapped: false,
        can_attack: false,
        card_types: types,
        colors: Vec::new(),
        mana_colors: Vec::new(),
        basic_land_type: None,
        catalog: None,
    }
}

fn basic(id: u64, definition: &'static str, color: Color) -> CardView {
    CardView { mana_colors: vec![color], ..card(id, definition, vec![CardType::Land]) }
}

fn brownscale(id: u64) -> CardView {
    CardView { colors: vec![Color::Green], ..card(id, "RAV-GOLGARI-BROWNSCALE", vec![CardType::Creature]) }
}

/// Seat `player`'s view in its own precombat main phase with priority.
fn main_phase(player: usize) -> GameView {
    GameView {
        player: PlayerId(player),
        decision_player: PlayerId(player),
        active_player: PlayerId(player),
        priority: PlayerId(player),
        step: Step::PrecombatMain,
        attackers_declared: false,
        blockers_declared: false,
        stack_depth: 0,
        lands_played: 0,
        own_life: 20,
        hand: Vec::new(),
        own_battlefield: Vec::new(),
        opponent_battlefield: Vec::new(),
        combat_attackers: Vec::new(),
        opponent_life: vec![(PlayerId(1 - player), 20)],
        mana: [0; 6],
        mana_total: 0,
        transmute_searches: Vec::new(),
        pending_decision: None,
        draw_replacement_pending: false,
        dredge_candidates: Vec::new(),
        private_library_choice: None,
        private_opponent_library_choice: None,
        library_search_choice: None,
        optional_triggered_ability_choice: None,
        mana_total_exact: 0,
    }
}

fn with_mana(mut view: GameView, color: Color, amount: u8) -> GameView {
    let slot = match color {
        Color::White => 0,
        Color::Blue => 1,
        Color::Black => 2,
        Color::Red => 3,
        Color::Green => 4,
        Color::Colorless => 5,
    };
    view.mana[slot] += amount;
    view.mana_total += amount;
    view.mana_total_exact += u16::from(amount);
    view
}

#[test]
fn does_not_play_a_land_during_the_opponents_main_phase() {
    let mut view = main_phase(1);
    view.active_player = PlayerId(0);
    view.hand.push(basic(10, "RAV-MOUNTAIN", Color::Red));
    let mut policy = BorosTempoPolicy::new(PlayerId(1));
    assert_eq!(policy.propose_move(&view), PolicyAction::PassPriority);
}

#[test]
fn tempo_plays_the_land_its_helix_needs_first() {
    let mut view = main_phase(0);
    view.hand.push(card(20, "RAV-LIGHTNING-HELIX", vec![CardType::Instant]));
    view.hand.push(basic(10, "RAV-MOUNTAIN", Color::Red));
    view.hand.push(basic(11, "RAV-PLAINS", Color::White));
    let mut policy = BorosTempoPolicy::new(PlayerId(0));
    assert_eq!(policy.propose_move(&view), PolicyAction::PlayLand { card: ObjectId(11) });
}

#[test]
fn tempo_taps_only_a_land_of_the_needed_colour() {
    let mut view = main_phase(0);
    view.lands_played = 1;
    view.hand.push(card(20, "RAV-LIGHTNING-HELIX", vec![CardType::Instant]));
    view.own_battlefield.push(basic(10, "RAV-MOUNTAIN", Color::Red));
    let mut policy = BorosTempoPolicy::new(PlayerId(0));
    // White is needed and no untapped land makes it: nothing is tapped.
    assert_eq!(policy.propose_move(&view), PolicyAction::PassPriority);
    view.own_battlefield.push(basic(11, "RAV-PLAINS", Color::White));
    assert_eq!(
        policy.propose_move(&view),
        PolicyAction::ActivateManaAbility { land: ObjectId(11), color: Color::White }
    );
}

#[test]
fn tempo_casts_helix_at_the_first_opponent() {
    let view = with_mana(with_mana(main_phase(0), Color::White, 1), Color::Red, 1);
    let mut view = view;
    view.hand.push(card(20, "RAV-LIGHTNING-HELIX", vec![CardType::Instant]));
    let mut policy = BorosTempoPolicy::new(PlayerId(0));
    assert_eq!(
        policy.propose_move(&view),
        PolicyAction::Cast(CastRequest {
            card: ObjectId(20),
            targets: vec![Target::Player(PlayerId(1))],
            convoke: vec![],
        })
    );
    assert_eq!(policy.id(), "rav.boros-tempo.v1");
}

#[test]
fn submits_a_fully_convoked_wurm_and_preserves_invariants() {
    let mut view = main_phase(0);
    view.hand.push(card(50, "RAV-SIEGE-WURM", vec![CardType::Creature]));
    for id in 0..7 {
        view.own_battlefield.push(brownscale(60 + id));
    }
    let mut policy = BorosConvokeBurnPolicy::new(PlayerId(0));
    let action = policy.propose_move(&view);
    let PolicyAction::Cast(request) = action else {
        panic!("policy must propose Wurm through convoke: {action:?}");
    };
    assert_eq!(request.card, ObjectId(50));
    assert_eq!(request.convoke.len(), 7);
    assert_eq!(request.convoke[0].contribution, ConvokeContribution::Color(Color::Green));
    assert_eq!(request.convoke[1].contribution, ConvokeContribution::Color(Color::Green));
    assert_eq!(request.convoke[2].contribution, ConvokeContribution::Generic);
}

#[test]
fn submits_char_at_the_opponent_and_preserves_invariants() {
    let mut view = with_mana(main_phase(0), Color::Red, 3);
    view.hand.push(card(30, "RAV-CHAR", vec![CardType::Instant]));
    let mut policy = BorosConvokeBurnPolicy::new(PlayerId(0));
    assert_eq!(
        policy.propose_move(&view),
        PolicyAction::Cast(CastRequest {
            card: ObjectId(30),
            targets: vec![Target::Player(PlayerId(1))],
            convoke: vec![],
        })
    );
}

#[test]
fn convoke_burn_aims_burn_at_an_opposing_creature() {
    let mut view = with_mana(main_phase(0), Color::Red, 3);
    view.hand.push(card(30, "RAV-CHAR", vec![CardType::Instant]));
    view.opponent_battlefield.push(card(90, "RAV-GOBLIN", vec![CardType::Creature]));
    let mut policy = BorosConvokeBurnPolicy::new(PlayerId(0));
    assert_eq!(
        policy.propose_move(&view),
        PolicyAction::Cast(CastRequest {
            card: ObjectId(30),
            targets: vec![Target::Permanent(ObjectId(90))],
            convoke: vec![],
        })
    );
}

#[test]
fn convoke_burn_blocks_each_attacker_with_the_next_untapped_creature() {
    let mut view = main_phase(0);
    view.active_player = PlayerId(1);
    view.step = Step::DeclareBlockers;
    view.combat_attackers = vec![card(80, "A", vec![CardType::Creature]), card(81, "B", vec![CardType::Creature])];
    let mut tapped = brownscale(61);
    tapped.tapped = true;
    view.own_battlefield = vec![tapped, brownscale(62)];
    let mut policy = BorosConvokeBurnPolicy::new(PlayerId(0));
    assert_eq!(
        policy.propose_move(&view),
        PolicyAction::DeclareBlockers {
            assignments: vec![CombatBlock { attacker: ObjectId(80), blocker: ObjectId(62) }],
        }
    );
}

#[test]
fn submits_scatter_then_rally_on_a_created_token() {
    let mut view = with_mana(main_phase(0), Color::Green, 5);
    view.hand.push(card(40, "RAV-SCATTER-THE-SEEDS", vec![CardType::Instant]));
    view.hand.push(card(41, "RAV-RALLY-THE-RIGHTEOUS", vec![CardType::Instant]));
    let mut policy = BorosTokenRallyPolicy::new(PlayerId(0));
    assert_eq!(
        policy.propose_move(&view),
        PolicyAction::Cast(CastRequest { card: ObjectId(40), targets: vec![], convoke: vec![] })
    );
    let mut view = with_mana(with_mana(with_mana(main_phase(0), Color::White, 1), Color::Red, 1), Color::Green, 1);
    view.hand.push(card(41, "RAV-RALLY-THE-RIGHTEOUS", vec![CardType::Instant]));
    view.own_battlefield.push(brownscale(70));
    assert_eq!(
        policy.propose_move(&view),
        PolicyAction::Cast(CastRequest {
            card: ObjectId(41),
            targets: vec![Target::Permanent(ObjectId(70))],
            convoke: vec![],
        })
    );
}

#[test]
fn boros_token_rally_submits_a_fully_convoked_scatter_and_preserves_invariants() {
    let mut view = main_phase(0);
    view.hand.push(card(40, "RAV-SCATTER-THE-SEEDS", vec![CardType::Instant]));
    for id in 0..5 {
        view.own_battlefield.push(brownscale(60 + id));
    }
    let mut policy = BorosTokenRallyPolicy::new(PlayerId(0));
    let action = policy.propose_move(&view);
    let PolicyAction::Cast(request) = action else {
        panic!("policy must propose Scatter through convoke: {action:?}");
    };
    assert_eq!(request.card, ObjectId(40));
    assert_eq!(request.convoke.len(), 5);
}

#[test]
fn rally_prefers_a_tapped_green_creature() {
    let mut view = with_mana(with_mana(with_mana(main_phase(0), Color::White, 1), Color::Red, 1), Color::Green, 1);
    view.hand.push(card(41, "RAV-RALLY-THE-RIGHTEOUS", vec![CardType::Instant]));
    let mut tapped = brownscale(71);
    tapped.tapped = true;
    view.own_battlefield = vec![brownscale(70), tapped];
    let mut policy = BorosTokenRallyPolicy::new(PlayerId(0));
    assert_eq!(
        policy.propose_move(&view),
        PolicyAction::Cast(CastRequest {
            card: ObjectId(41),
            targets: vec![Target::Permanent(ObjectId(71))],
            convoke: vec![],
        })
    );
}

#[test]
fn submits_transmute_using_a_controller_visible_legal_candidate() {
    let mut view = with_mana(with_mana(main_phase(0), Color::Blue, 2), Color::Green, 1);
    view.hand.push(card(10, "RAV-MUDDLE-THE-MIXTURE", vec![CardType::Instant]));
    view.transmute_searches.push(TransmuteSearch {
        card: ObjectId(10),
        candidates: vec![card(11, "RAV-LIGHTNING-HELIX", vec![CardType::Instant])],
    });
    let mut policy = DimirTransmuteConvokePolicy::new(PlayerId(0));
    assert_eq!(policy.propose_move(&view), PolicyAction::Transmute { card: ObjectId(10) });
}

#[test]
fn transmute_waits_for_a_helix_candidate() {
    let mut view = with_mana(with_mana(main_phase(0), Color::Blue, 2), Color::Green, 1);
    view.hand.push(card(10, "RAV-MUDDLE-THE-MIXTURE", vec![CardType::Instant]));
    view.transmute_searches.push(TransmuteSearch {
        card: ObjectId(10),
        candidates: vec![card(12, "RAV-CHAR", vec![CardType::Instant])],
    });
    let mut policy = DimirTransmuteConvokePolicy::new(PlayerId(0));
    assert_eq!(policy.propose_move(&view), PolicyAction::PassPriority);
}

#[test]
fn dimir_transmute_convoke_submits_a_fully_convoked_scatter_and_preserves_invariants() {
    let mut view = main_phase(0);
    view.hand.push(card(40, "RAV-SCATTER-THE-SEEDS", vec![CardType::Instant]));
    for id in 0..5 {
        view.own_battlefield.push(brownscale(60 + id));
    }
    let mut policy = DimirTransmuteConvokePolicy::new(PlayerId(0));
    let action = policy.propose_move(&view);
    let PolicyAction::Cast(request) = action else {
        panic!("policy must convoke Scatter: {action:?}");
    };
    assert_eq!(request.card, ObjectId(40));
    assert_eq!(request.convoke.len(), 5);
}

fn decision(kind: DecisionKind, candidates: Vec<CardView>) -> PendingDecision {
    PendingDecision {
        id: DecisionId(7),
        kind,
        candidates,
        min_selections: 1,
        target_candidates: Vec::new(),
        trigger_candidates: Vec::new(),
        replacement_candidates: Vec::new(),
        color_candidates: Vec::new(),
        card_name_candidates: Vec::new(),
    }
}

#[test]
fn dimir_answers_a_pending_decision_with_its_helix() {
    let mut view = main_phase(0);
    view.pending_decision = Some(decision(
        DecisionKind::LibrarySearch,
        vec![card(1, "RAV-CHAR", vec![]), card(2, "RAV-LIGHTNING-HELIX", vec![])],
    ));
    let mut policy = DimirTransmuteConvokePolicy::new(PlayerId(0));
    assert_eq!(
        policy.propose_move(&view),
        PolicyAction::SubmitDecision {
            decision: DecisionId(7),
            selection: DecisionSelection::Objects(vec![ObjectId(2)]),
        }
    );
}

#[test]
fn conservative_decisions_take_the_fewest_allowed() {
    let mut view = main_phase(0);
    view.pending_decision = Some(decision(
        DecisionKind::CleanupDiscard,
        vec![card(1, "A", vec![]), card(2, "B", vec![]), card(3, "C", vec![])],
    ));
    assert_eq!(
        conservative_pending_decision(&view),
        Some(PolicyAction::SubmitDecision {
            decision: DecisionId(7),
            selection: DecisionSelection::Objects(vec![ObjectId(1)]),
        })
    );
    view.pending_decision = None;
    assert_eq!(conservative_pending_decision(&view), None);
}

#[test]
fn conservative_top_partition_keeps_one_tops_one_and_reverses_the_rest() {
    let mut view = main_phase(0);
    view.pending_decision = Some(decision(
        DecisionKind::LibraryTopPartition,
        vec![card(1, "A", vec![]), card(2, "B", vec![]), card(3, "C", vec![]), card(4, "D", vec![])],
    ));
    assert_eq!(
        conservative_pending_decision(&view),
        Some(PolicyAction::SubmitDecision {
            decision: DecisionId(7),
            selection: DecisionSelection::LibraryTopPartition {
                hand: ObjectId(1),
                top: Some(ObjectId(2)),
                bottom: vec![ObjectId(4), ObjectId(3)],
            },
        })
    );
    view.pending_decision = Some(decision(DecisionKind::LibraryTopPartition, vec![]));
    assert_eq!(conservative_pending_decision(&view), None);
}

#[test]
fn conservative_decisions_decline_optional_payments_and_pick_the_first_colour() {
    let mut view = main_phase(0);
    view.pending_decision = Some(decision(DecisionKind::CounterUnlessPaysMana, vec![]));
    assert_eq!(
        conservative_pending_decision(&view),
        Some(PolicyAction::SubmitDecision {
            decision: DecisionId(7),
            selection: DecisionSelection::CounterUnlessPaysMana { pay: false },
        })
    );
    let mut colours = decision(DecisionKind::TargetPlayerManaColor, vec![]);
    view.pending_decision = Some(colours.clone());
    assert_eq!(conservative_pending_decision(&view), None);
    colours.color_candidates = vec![Color::Blue, Color::Red];
    view.pending_decision = Some(colours);
    assert_eq!(
        conservative_pending_decision(&view),
        Some(PolicyAction::SubmitDecision { decision: DecisionId(7), selection: DecisionSelection::Color(Color::Blue) })
    );
}

fn cast_one(card: u64, target: Target) -> PolicyAction {
    PolicyAction::Cast(CastRequest { card: ObjectId(card), targets: vec![target], convoke: vec![] })
}

#[test]
fn char_is_preferred_when_its_self_damage_is_safe() {
    let mut view = with_mana(with_mana(main_phase(0), Color::White, 1), Color::Red, 2);
    view.lands_played = 1;
    view.hand.push(card(30, "RAV-CHAR", vec![CardType::Instant]));
    view.hand.push(card(31, "RAV-LIGHTNING-HELIX", vec![CardType::Instant]));
    let mut policy = BorosCharControlPolicy::new(PlayerId(0));
    assert_eq!(policy.propose_move(&view), cast_one(30, Target::Player(PlayerId(1))));
}

#[test]
fn char_is_held_at_two_life_and_helix_remains_available() {
    let mut view = with_mana(with_mana(main_phase(0), Color::White, 1), Color::Red, 2);
    view.own_life = 2;
    view.hand.push(card(30, "RAV-CHAR", vec![CardType::Instant]));
    view.hand.push(card(31, "RAV-LIGHTNING-HELIX", vec![CardType::Instant]));
    let mut policy = BorosCharControlPolicy::new(PlayerId(0));
    assert_eq!(policy.propose_move(&view), cast_one(31, Target::Player(PlayerId(1))));
}

#[test]
fn policy_develops_red_mana_and_submits_empty_combat_actions() {
    let mut view = main_phase(0);
    view.hand.push(basic(10, "RAV-MOUNTAIN", Color::Red));
    view.hand.push(card(30, "RAV-CHAR", vec![CardType::Instant]));
    let mut policy = BorosCharControlPolicy::new(PlayerId(0));
    assert_eq!(policy.propose_move(&view), PolicyAction::PlayLand { card: ObjectId(10) });
    let mountain = view.hand.remove(0);
    view.own_battlefield.push(mountain);
    view.lands_played = 1;
    assert_eq!(
        policy.propose_move(&view),
        PolicyAction::ActivateManaAbility { land: ObjectId(10), color: Color::Red }
    );
    view.step = Step::DeclareAttackers;
    assert_eq!(policy.propose_move(&view), PolicyAction::DeclareAttackers { attackers: vec![] });
    view.attackers_declared = true;
    assert_eq!(policy.propose_move(&view), PolicyAction::PassPriority);
    let mut defender = BorosCharControlPolicy::new(PlayerId(1));
    let mut theirs = main_phase(1);
    theirs.active_player = PlayerId(0);
    theirs.step = Step::DeclareAttackers;
    theirs.attackers_declared = true;
    assert_eq!(defender.propose_move(&theirs), PolicyAction::PassPriority);
}

#[test]
fn char_control_goes_for_a_lethal_helix() {
    let mut view = with_mana(with_mana(main_phase(0), Color::White, 1), Color::Red, 2);
    view.lands_played = 1;
    view.opponent_life = vec![(PlayerId(1), 3)];
    view.opponent_battlefield.push(card(90, "RAV-GOBLIN", vec![CardType::Creature]));
    view.hand.push(card(30, "RAV-CHAR", vec![CardType::Instant]));
    view.hand.push(card(31, "RAV-LIGHTNING-HELIX", vec![CardType::Instant]));
    let mut policy = BorosCharControlPolicy::new(PlayerId(0));
    assert_eq!(policy.propose_move(&view), cast_one(31, Target::Player(PlayerId(1))));
}

#[test]
fn submits_transmute_for_a_visible_legal_helix_candidate() {
    let mut view = with_mana(with_mana(main_phase(0), Color::Blue, 2), Color::Green, 1);
    view.hand.push(card(10, "RAV-MUDDLE-THE-MIXTURE", vec![CardType::Instant]));
    let mut policy = DimirTransmuteAttritionPolicy::new(PlayerId(0));
    assert_eq!(policy.propose_move(&view), PolicyAction::Transmute { card: ObjectId(10) });
}

#[test]
fn submits_last_gasp_then_observes_state_based_cleanup() {
    let mut view = with_mana(main_phase(0), Color::Black, 1);
    view.hand.push(card(20, "RAV-LAST-GASP", vec![CardType::Instant]));
    view.opponent_battlefield.push(brownscale(90));
    let mut policy = DimirTransmuteAttritionPolicy::new(PlayerId(0));
    assert_eq!(policy.propose_move(&view), cast_one(20, Target::Permanent(ObjectId(90))));
}

#[test]
fn removes_an_opposing_brownscale_through_policy_submission() {
    let mut view = with_mana(main_phase(0), Color::Black, 1);
    view.hand.push(card(20, "RAV-LAST-GASP", vec![CardType::Instant]));
    view.opponent_battlefield.push(card(91, "RAV-SIEGE-WURM", vec![CardType::Creature]));
    view.opponent_battlefield.push(brownscale(90));
    let mut policy = GolgariAttritionPolicy::new(PlayerId(0));
    assert_eq!(policy.propose_move(&view), cast_one(20, Target::Permanent(ObjectId(90))));
    // Last Gasp is an instant: it is cast on the opponent's turn too.
    view.active_player = PlayerId(1);
    assert_eq!(policy.propose_move(&view), cast_one(20, Target::Permanent(ObjectId(90))));
}

#[test]
fn convokes_scatter_only_with_legal_green_creatures() {
    let mut view = main_phase(0);
    view.hand.push(card(40, "RAV-SCATTER-THE-SEEDS", vec![CardType::Instant]));
    let mut tapped = brownscale(59);
    tapped.tapped = true;
    view.own_battlefield.push(tapped);
    view.own_battlefield.push(card(58, "RAV-GOBLIN", vec![CardType::Creature]));
    for id in 0..5 {
        view.own_battlefield.push(brownscale(60 + id));
    }
    let mut policy = GolgariAttritionPolicy::new(PlayerId(0));
    let action = policy.propose_move(&view);
    let PolicyAction::Cast(request) = action else {
        panic!("policy should convoke Scatter: {action:?}");
    };
    assert_eq!(request.card, ObjectId(40));
    assert_eq!(request.convoke.len(), 5);
    assert!(request.convoke.iter().all(|payment| (60..65).contains(&payment.creature.0)));
}

#[test]
fn submits_explicit_attrition_combat_actions_and_preserves_invariants() {
    let mut view = main_phase(0);
    view.step = Step::DeclareAttackers;
    let mut attacker = brownscale(70);
    attacker.can_attack = true;
    view.own_battlefield.push(attacker);
    let mut attacker_policy = GolgariAttritionPolicy::new(PlayerId(0));
    assert_eq!(
        attacker_policy.propose_move(&view),
        PolicyAction::DeclareAttackers { attackers: vec![ObjectId(70)] }
    );
    let mut theirs = main_phase(1);
    theirs.active_player = PlayerId(0);
    theirs.step = Step::DeclareBlockers;
    theirs.combat_attackers = vec![brownscale(70)];
    theirs.own_battlefield = vec![card(81, "RAV-SIEGE-WURM", vec![CardType::Creature]), brownscale(80)];
    let mut defender_policy = GolgariAttritionPolicy::new(PlayerId(1));
    assert_eq!(
        defender_policy.propose_move(&theirs),
        PolicyAction::DeclareBlockers {
            assignments: vec![CombatBlock { attacker: ObjectId(70), blocker: ObjectId(80) }],
        }
    );
}

#[test]
fn prefers_a_legal_scatter_before_an_equally_legal_wurm_submission() {
    let mut view = with_mana(main_phase(0), Color::Green, 7);
    view.hand.push(card(40, "RAV-SCATTER-THE-SEEDS", vec![CardType::Instant]));
    view.hand.push(card(50, "RAV-SIEGE-WURM", vec![CardType::Creature]));
    let mut policy = GolgariWurmPressPolicy::new(PlayerId(0));
    assert_eq!(
        policy.propose_move(&view),
        PolicyAction::Cast(CastRequest { card: ObjectId(40), targets: vec![], convoke: vec![] })
    );
}

#[test]
fn submits_a_fully_convoked_wurm_and_taps_only_its_contributors() {
    let mut view = main_phase(0);
    view.hand.push(card(50, "RAV-SIEGE-WURM", vec![CardType::Creature]));
    for id in 0..7 {
        view.own_battlefield.push(brownscale(60 + id));
    }
    let mut policy = GolgariWurmPressPolicy::new(PlayerId(0));
    let action = policy.propose_move(&view);
    let PolicyAction::Cast(request) = action else {
        panic!("expected Wurm proposal: {action:?}");
    };
    assert_eq!(request.card, ObjectId(50));
    assert_eq!(request.convoke.len(), 7);
    assert!(request.convoke.iter().all(|payment| (60..67).contains(&payment.creature.0)));
}

#[test]
fn submits_explicit_combat_and_spends_a_brownscale_before_a_wurm_as_blocker() {
    let mut theirs = main_phase(1);
    theirs.active_player = PlayerId(0);
    theirs.step = Step::DeclareBlockers;
    theirs.combat_attackers = vec![brownscale(70)];
    theirs.own_battlefield = vec![card(81, "RAV-SIEGE-WURM", vec![CardType::Creature]), brownscale(80)];
    let mut defender_policy = GolgariWurmPressPolicy::new(PlayerId(1));
    assert_eq!(
        defender_policy.propose_move(&theirs),
        PolicyAction::DeclareBlockers {
            assignments: vec![CombatBlock { attacker: ObjectId(70), blocker: ObjectId(80) }],
        }
    );
}

#[test]
fn wurm_press_taps_any_untapped_source_of_the_wanted_colour() {
    let mut view = main_phase(0);
    view.lands_played = 1;
    let mut elf = card(60, "RAV-ELF", vec![CardType::Creature]);
    elf.mana_colors = vec![Color::Green];
    view.own_battlefield = vec![basic(10, "RAV-SWAMP", Color::Black), elf];
    let mut policy = GolgariWurmPressPolicy::new(PlayerId(0));
    assert_eq!(
        policy.propose_move(&view),
        PolicyAction::ActivateManaAbility { land: ObjectId(60), color: Color::Green }
    );
}

#[test]
fn submits_removal_and_reaches_a_state_based_action_fixed_point() {
    let mut view = with_mana(main_phase(0), Color::Black, 1);
    view.hand.push(card(20, "RAV-LAST-GASP", vec![CardType::Instant]));
    view.opponent_battlefield.push(brownscale(90));
    let mut policy = GolgariDredgeGrindPolicy::new(PlayerId(0));
    assert_eq!(policy.propose_move(&view), cast_one(20, Target::Permanent(ObjectId(90))));
}

#[test]
fn submits_full_green_convoke_without_using_a_tapped_or_wrong_color_creature() {
    let mut view = main_phase(0);
    view.hand.push(card(40, "RAV-SCATTER-THE-SEEDS", vec![CardType::Instant]));
    let mut tapped = brownscale(59);
    tapped.tapped = true;
    view.own_battlefield.push(tapped);
    view.own_battlefield.push(card(58, "RAV-GOBLIN", vec![CardType::Creature]));
    for id in 0..5 {
        view.own_battlefield.push(brownscale(60 + id));
    }
    let mut policy = GolgariDredgeGrindPolicy::new(PlayerId(0));
    let action = policy.propose_move(&view);
    let PolicyAction::Cast(request) = action else {
        panic!("expected legal convoke proposal: {action:?}");
    };
    assert_eq!(request.card, ObjectId(40));
    assert_eq!(request.convoke.len(), 5);
    assert!(request.convoke.iter().all(|payment| (60..65).contains(&payment.creature.0)));
}

#[test]
fn policy_submits_brownscale_dredge_at_the_real_draw_decision_boundary() {
    let mut view = main_phase(0);
    view.step = Step::Draw;
    view.draw_replacement_pending = true;
    view.dredge_candidates = vec![brownscale(33)];
    let mut policy = GolgariDredgeGrindPolicy::new(PlayerId(0));
    assert_eq!(policy.propose_draw_replacement(&view), PolicyAction::Draw { dredge: Some(ObjectId(33)) });
    view.draw_replacement_pending = false;
    assert_eq!(policy.propose_draw_replacement(&view), PolicyAction::Draw { dredge: None });
    let mut other = BorosTempoPolicy::new(PlayerId(0));
    view.draw_replacement_pending = true;
    assert_eq!(other.propose_draw_replacement(&view), PolicyAction::Draw { dredge: None });
}

#[test]
fn dredge_grind_spends_tokens_before_brownscales_as_blockers() {
    let mut theirs = main_phase(1);
    theirs.active_player = PlayerId(0);
    theirs.step = Step::DeclareBlockers;
    theirs.combat_attackers = vec![brownscale(70), brownscale(71)];
    let token = CardView { definition: None, ..brownscale(82) };
    theirs.own_battlefield = vec![card(81, "RAV-SIEGE-WURM", vec![CardType::Creature]), brownscale(80), token];
    let mut policy = GolgariDredgeGrindPolicy::new(PlayerId(1));
    assert_eq!(
        policy.propose_move(&theirs),
        PolicyAction::DeclareBlockers {
            assignments: vec![
                CombatBlock { attacker: ObjectId(70), blocker: ObjectId(82) },
                CombatBlock { attacker: ObjectId(71), blocker: ObjectId(80) },
            ],
        }
    );
}

#[test]
fn submits_creature_then_radiance_and_preserves_invariants() {
    let mut view = with_mana(main_phase(0), Color::Green, 3);
    view.hand.push(card(44, "RAV-GOLGARI-BROWNSCALE", vec![CardType::Creature]));
    view.hand.push(card(41, "RAV-RALLY-THE-RIGHTEOUS", vec![CardType::Instant]));
    let mut policy = BorosRadianceAssaultPolicy::new(PlayerId(0));
    assert_eq!(
        policy.propose_move(&view),
        PolicyAction::Cast(CastRequest { card: ObjectId(44), targets: vec![], convoke: vec![] })
    );
    let mut view = with_mana(with_mana(main_phase(0), Color::White, 1), Color::Red, 2);
    view.hand.push(card(41, "RAV-RALLY-THE-RIGHTEOUS", vec![CardType::Instant]));
    let mut creature = brownscale(44);
    creature.tapped = true;
    view.own_battlefield.push(creature);
    assert_eq!(policy.propose_move(&view), cast_one(41, Target::Permanent(ObjectId(44))));
}

#[test]
fn submits_helix_at_an_opposing_creature_and_preserves_invariants() {
    let mut view = with_mana(with_mana(main_phase(0), Color::White, 1), Color::Red, 1);
    view.hand.push(card(31, "RAV-LIGHTNING-HELIX", vec![CardType::Instant]));
    view.opponent_battlefield.push(brownscale(90));
    let mut policy = BorosRadianceAssaultPolicy::new(PlayerId(0));
    assert_eq!(policy.propose_move(&view), cast_one(31, Target::Permanent(ObjectId(90))));
}

#[test]
fn default_private_choices_select_nothing_or_the_first_candidate() {
    let mut view = main_phase(0);
    view.private_library_choice = Some(PrivateLibraryChoice { decision: DecisionId(3), spell: ObjectId(4) });
    view.private_opponent_library_choice = Some(PrivateOpponentLibraryChoice {
        source: ObjectId(5),
        ability: 1,
        cards: vec![card(6, "X", vec![]), card(7, "Y", vec![])],
    });
    view.library_search_choice = Some(LibrarySearchChoice { source: ObjectId(8), cards: vec![] });
    let mut policy = BorosTempoPolicy::new(PlayerId(0));
    assert_eq!(
        policy.propose_private_library_choice(&view),
        PolicyAction::ChoosePrivateLibraryCards { decision: DecisionId(3), spell: ObjectId(4), selected: vec![] }
    );
    assert_eq!(
        policy.propose_private_opponent_library_choice(&view),
        PolicyAction::ChoosePrivateOpponentLibraryCardToExile {
            source: ObjectId(5),
            ability: 1,
            selected: Some(ObjectId(6)),
        }
    );
    assert_eq!(
        policy.propose_library_search_choice(&view),
        PolicyAction::ChooseLibrarySearchCard { source: ObjectId(8), selected: None }
    );
}

#[test]
fn convoke_uses_floating_mana_first_and_creatures_for_the_rest() {
    let mut view = with_mana(with_mana(main_phase(0), Color::Green, 1), Color::Red, 1);
    view.hand.push(card(50, "RAV-SIEGE-WURM", vec![CardType::Creature]));
    for id in 0..7 {
        view.own_battlefield.push(brownscale(60 + id));
    }
    let mut policy = BorosConvokeBurnPolicy::new(PlayerId(0));
    let action = policy.propose_move(&view);
    let PolicyAction::Cast(request) = action else {
        panic!("policy must propose Wurm through convoke: {action:?}");
    };
    // One floating green pays one green symbol, the red pays one generic: one
    // creature convokes green and four convoke generic.
    assert_eq!(request.convoke.len(), 5);
    assert_eq!(request.convoke[0].contribution, ConvokeContribution::Color(Color::Green));
    assert!(request.convoke[1..].iter().all(|payment| payment.contribution == ConvokeContribution::Generic));
    assert_eq!(request.convoke[4].creature, ObjectId(64));
}

#[test]
fn every_policy_passes_for_another_seat_and_outside_its_steps() {
    let mut view = with_mana(main_phase(0), Color::Red, 3);
    view.hand.push(card(30, "RAV-CHAR", vec![CardType::Instant]));
    view.decision_player = PlayerId(1);
    assert_eq!(BorosCharControlPolicy::new(PlayerId(0)).propose_move(&view), PolicyAction::PassPriority);
    assert_eq!(BorosConvokeBurnPolicy::new(PlayerId(0)).propose_move(&view), PolicyAction::PassPriority);
    assert_eq!(GolgariAttritionPolicy::new(PlayerId(0)).propose_move(&view), PolicyAction::PassPriority);
    view.decision_player = PlayerId(0);
    view.step = Step::Upkeep;
    assert_eq!(BorosCharControlPolicy::new(PlayerId(0)).propose_move(&view), PolicyAction::PassPriority);
    assert_eq!(BorosTempoPolicy::new(PlayerId(0)).propose_move(&view), PolicyAction::PassPriority);
    assert_eq!(GolgariWurmPressPolicy::new(PlayerId(0)).propose_move(&view), PolicyAction::PassPriority);
}

fn catalog_card(id: u64, mana_value: u8, green: u8, generic: u8) -> CardView {
    let mut colored = [0; 6];
    colored[4] = green;
    CardView {
        catalog: Some(CatalogFacts { mana_value, colored, colored_len: green as usize, generic, safe: true }),
        ..card(id, "RAV-CATALOG", vec![CardType::Creature])
    }
}

#[test]
fn catalog_profiles_cast_the_cheapest_or_the_dearest_castable_permanent() {
    let mut view = with_mana(main_phase(0), Color::Green, 4);
    view.lands_played = 1;
    view.hand = vec![
        catalog_card(12, 3, 1, 2),
        catalog_card(11, 2, 1, 1),
        catalog_card(10, 2, 2, 0),
        catalog_card(13, 5, 1, 4),
        CardView { catalog: Some(CatalogFacts { safe: false, ..catalog_card(14, 1, 0, 1).catalog.unwrap() }), ..card(14, "X", vec![]) },
    ];
    let cast = |id: u64| PolicyAction::Cast(CastRequest { card: ObjectId(id), targets: vec![], convoke: vec![] });
    let mut curve = RavCatalogPolicy::new(PlayerId(0), CatalogPolicyProfile::Curve);
    assert_eq!(curve.propose_move(&view), cast(10));
    let mut top_end = RavCatalogPolicy::new(PlayerId(0), CatalogPolicyProfile::TopEnd);
    assert_eq!(top_end.propose_move(&view), cast(12));
    assert_eq!(top_end.id(), "rav.catalog-top-end.v1");
}

#[test]
fn catalog_plays_a_basic_first_and_declines_shock_life_payments() {
    let mut view = main_phase(0);
    let mut foundry = basic(20, "RAV-SACRED-FOUNDRY", Color::Red);
    foundry.mana_colors = vec![Color::Red, Color::White];
    let mut forest = basic(21, "RAV-FOREST", Color::Green);
    forest.basic_land_type = Some(LandType::Forest);
    view.hand = vec![foundry.clone(), forest];
    let mut policy = RavCatalogPolicy::new(PlayerId(0), CatalogPolicyProfile::Pressure);
    assert_eq!(policy.propose_move(&view), PolicyAction::PlayLand { card: ObjectId(21) });
    view.hand = vec![foundry];
    assert_eq!(
        policy.propose_move(&view),
        PolicyAction::PlayLandWithEntryLifePayment { card: ObjectId(20), pay_life: false }
    );
}

#[test]
fn catalog_taps_basics_declines_optional_triggers_and_patient_holds_back() {
    let mut view = main_phase(0);
    view.lands_played = 1;
    let mut forest = basic(21, "RAV-FOREST", Color::Green);
    forest.basic_land_type = Some(LandType::Forest);
    view.own_battlefield = vec![basic(20, "RAV-SACRED-FOUNDRY", Color::Red), forest];
    let mut policy = RavCatalogPolicy::new(PlayerId(0), CatalogPolicyProfile::Patient);
    assert_eq!(
        policy.propose_move(&view),
        PolicyAction::ActivateManaAbility { land: ObjectId(21), color: Color::Green }
    );
    view.optional_triggered_ability_choice =
        Some(OptionalTriggerChoice { decision: DecisionId(9), source: ObjectId(5), ability: 0 });
    assert_eq!(
        policy.propose_move(&view),
        PolicyAction::ResolveOptionalTriggeredAbility {
            decision: DecisionId(9),
            source: ObjectId(5),
            ability: 0,
            pay: false,
            target: None,
        }
    );
    view.optional_triggered_ability_choice = None;
    view.step = Step::DeclareAttackers;
    let mut attacker = brownscale(70);
    attacker.can_attack = true;
    view.own_battlefield.push(attacker);
    assert_eq!(policy.propose_move(&view), PolicyAction::DeclareAttackers { attackers: vec![] });
    let mut pressure = RavCatalogPolicy::new(PlayerId(0), CatalogPolicyProfile::Pressure);
    assert_eq!(pressure.propose_move(&view), PolicyAction::DeclareAttackers { attackers: vec![ObjectId(70)] });
}

#[test]
fn only_the_graveyard_profile_dredges() {
    let mut view = main_phase(0);
    view.dredge_candidates = vec![brownscale(33)];
    let mut graveyard = RavCatalogPolicy::new(PlayerId(0), CatalogPolicyProfile::Graveyard);
    assert_eq!(graveyard.propose_draw_replacement(&view), PolicyAction::Draw { dredge: Some(ObjectId(33)) });
    let mut curve = RavCatalogPolicy::new(PlayerId(0), CatalogPolicyProfile::Curve);
    assert_eq!(curve.propose_draw_replacement(&view), PolicyAction::Draw { dredge: None });
    view.pending_decision = Some(decision(DecisionKind::CounterUnlessDiscardsHand, vec![]));
    assert_eq!(
        curve.propose_pending_decision(&view),
        Some(PolicyAction::SubmitDecision {
            decision: DecisionId(7),
            selection: DecisionSelection::CounterUnlessDiscardsHand { discard: false },
        })
    );
}
