use cardbench_magic_policies::planner::board::{
    Board, Color, HybridManaSymbol, ManaCost, ObjectId, Opponent, Permanent, PlayerId, Role, SourceKind, Step,
};
use cardbench_magic_policies::planner::mana::{can_pay, plan, potential, ManaTap};

fn land(object: u64, colors: &[Color]) -> Permanent {
    Permanent {
        object: ObjectId(object),
        controller: PlayerId(0),
        definition: Some("LAND"),
        tapped: false,
        can_attack: false,
        can_block: false,
        summoning_sick: false,
        is_creature: false,
        is_land: true,
        power: 0,
        toughness: 0,
        keywords: Vec::new(),
        source: Some(SourceKind::BasicTyped(colors.to_vec())),
        role: Role::Land,
        controller_is_opponent: false,
    }
}

fn karoo(object: u64, colors: [Color; 2]) -> Permanent {
    Permanent {
        source: Some(SourceKind::BoundBundle { ability: "karoo", bundle: vec![(colors[0], 1), (colors[1], 1)] }),
        ..land(object, &[])
    }
}

fn board(permanents: Vec<Permanent>) -> Board {
    Board {
        me: PlayerId(0),
        my_life: 20,
        opponents: vec![Opponent { seat: PlayerId(1), life: 20 }],
        turn: 1,
        step: Step::PrecombatMain,
        is_my_turn: true,
        lands_played: 0,
        stack_depth: 0,
        attackers_declared: false,
        blockers_declared: false,
        hand: Vec::new(),
        mine: permanents,
        theirs: Vec::new(),
        attackers: Vec::new(),
        floating: [0; 6],
    }
}

#[test]
fn a_single_colored_symbol_taps_one_matching_land() {
    let board = board(vec![land(1, &[Color::Red]), land(2, &[Color::White])]);
    let plan = plan(&board, &ManaCost::with_colors(0, vec![Color::Red])).expect("payable");
    assert_eq!(plan.taps, vec![ManaTap::Basic { land: ObjectId(1), color: Color::Red }]);
    assert_eq!(plan.waste, 0);
}

#[test]
fn a_dual_is_reserved_for_the_color_only_it_can_make() {
    let board = board(vec![land(1, &[Color::Red]), land(2, &[Color::White, Color::Red])]);
    let plan = plan(&board, &ManaCost::with_colors(0, vec![Color::White, Color::Red])).expect("payable");
    assert_eq!(plan.taps.len(), 2);
    assert!(plan.taps.contains(&ManaTap::Basic { land: ObjectId(2), color: Color::White }));
    assert!(plan.taps.contains(&ManaTap::Basic { land: ObjectId(1), color: Color::Red }));
}

#[test]
fn generic_costs_accept_any_source() {
    let board = board(vec![land(1, &[Color::Red]), land(2, &[Color::White]), land(3, &[Color::Green])]);
    let plan = plan(&board, &ManaCost::with_colors(2, vec![Color::Red])).expect("payable");
    assert_eq!(plan.taps.len(), 3);
}

#[test]
fn a_bundle_land_pays_two_symbols_with_one_activation() {
    let board = board(vec![karoo(1, [Color::Red, Color::White])]);
    let plan = plan(&board, &ManaCost::with_colors(0, vec![Color::Red, Color::White])).expect("payable");
    assert_eq!(plan.taps.len(), 1);
    assert_eq!(plan.waste, 0);
}

#[test]
fn an_unpayable_cost_is_reported_rather_than_guessed() {
    let board = board(vec![land(1, &[Color::Red]), land(2, &[Color::Red])]);
    assert!(plan(&board, &ManaCost::with_colors(0, vec![Color::Blue])).is_none());
    assert!(plan(&board, &ManaCost::with_colors(5, vec![Color::Red])).is_none());
}

#[test]
fn floating_mana_is_spent_before_anything_is_tapped() {
    let mut board = board(vec![land(1, &[Color::Red])]);
    board.floating[Color::Red.index()] = 1;
    let plan = plan(&board, &ManaCost::with_colors(0, vec![Color::Red])).expect("payable");
    assert!(plan.taps.is_empty(), "floating mana needs no activation");
}

#[test]
fn tapped_sources_are_not_available() {
    let mut permanent = land(1, &[Color::Red]);
    permanent.tapped = true;
    let board = board(vec![permanent]);
    assert!(plan(&board, &ManaCost::with_colors(0, vec![Color::Red])).is_none());
}

#[test]
fn planning_is_deterministic() {
    let build = || board(vec![land(3, &[Color::Red, Color::White]), land(1, &[Color::Red]), land(2, &[Color::White])]);
    let cost = ManaCost::with_colors(1, vec![Color::Red, Color::White]);
    let first = plan(&build(), &cost).expect("payable");
    for _ in 0..8 {
        assert_eq!(plan(&build(), &cost).expect("payable"), first);
    }
}

#[test]
fn hybrid_symbols_accept_either_color() {
    let board = board(vec![land(1, &[Color::Green])]);
    let cost = ManaCost::with_hybrid(0, vec![], vec![HybridManaSymbol { first: Color::White, second: Color::Green }]);
    assert!(plan(&board, &cost).is_some());
}

#[test]
fn a_paid_plan_covers_every_symbol_of_its_cost() {
    let board = board(vec![land(1, &[Color::Red]), land(2, &[Color::Green]), land(3, &[Color::White, Color::Blue])]);
    let cost = ManaCost::with_colors(1, vec![Color::Blue, Color::Green]);
    let plan = plan(&board, &cost).expect("payable");
    assert_eq!(plan.taps.len(), 3);
    assert!(plan.taps.contains(&ManaTap::Basic { land: ObjectId(3), color: Color::Blue }));
    assert!(plan.taps.contains(&ManaTap::Basic { land: ObjectId(2), color: Color::Green }));
    assert_eq!(plan.waste, 0);
}

#[test]
fn can_pay_agrees_with_plan() {
    let board = board(vec![land(1, &[Color::Red])]);
    assert!(can_pay(&board, &ManaCost::with_colors(0, vec![Color::Red])));
    assert!(!can_pay(&board, &ManaCost::with_colors(1, vec![Color::Red])));
}

#[test]
fn potential_counts_untapped_sources_and_floating_mana() {
    let mut tapped = land(2, &[Color::White]);
    tapped.tapped = true;
    let mut board = board(vec![land(1, &[Color::Red]), tapped, karoo(3, [Color::Red, Color::White])]);
    board.floating[Color::Green.index()] = 2;
    assert_eq!(potential(&board), 5);
}

#[test]
fn hybrid_symbols_are_not_spent_on_their_first_colour_blindly() {
    // One activation makes white and green. Paying W/G with white would leave
    // nothing for W/B; paying it with green leaves white for W/B.
    let board = board(vec![karoo(1, [Color::White, Color::Green])]);
    let cost = ManaCost::with_hybrid(
        0,
        vec![],
        vec![
            HybridManaSymbol { first: Color::White, second: Color::Green },
            HybridManaSymbol { first: Color::White, second: Color::Black },
        ],
    );
    let found = plan(&board, &cost).expect("green pays W/G and white pays W/B");
    assert_eq!(found.taps.len(), 1);
    assert_eq!(found.waste, 0);
}

#[test]
fn hybrid_symbols_with_no_source_of_either_colour_are_unpayable() {
    let board = board(vec![land(1, &[Color::Red]), land(2, &[Color::Blue])]);
    let cost = ManaCost::with_hybrid(
        0,
        vec![],
        vec![HybridManaSymbol { first: Color::White, second: Color::Green }],
    );
    assert!(plan(&board, &cost).is_none());
}

#[test]
fn a_bundle_that_overshoots_reports_its_waste() {
    let board = board(vec![karoo(1, [Color::Red, Color::White])]);
    let found = plan(&board, &ManaCost::with_colors(0, vec![Color::Red])).expect("payable");
    assert_eq!(found.taps.len(), 1);
    assert_eq!(found.waste, 1);
}

#[test]
fn floating_mana_pays_a_hybrid_symbol_in_its_second_colour() {
    let mut board = board(vec![land(1, &[Color::White])]);
    board.floating[Color::Green.index()] = 1;
    let cost = ManaCost::with_hybrid(0, vec![], vec![HybridManaSymbol { first: Color::White, second: Color::Green }]);
    let found = plan(&board, &cost).expect("the floating green pays W/G");
    assert!(found.taps.is_empty());
    assert_eq!(found.waste, 0);
}

#[test]
fn a_hybrid_symbol_taps_the_first_source_in_order_of_either_colour() {
    let board = board(vec![land(1, &[Color::Green]), land(2, &[Color::White])]);
    let cost = ManaCost::with_hybrid(0, vec![], vec![HybridManaSymbol { first: Color::White, second: Color::Green }]);
    let found = plan(&board, &cost).expect("payable");
    assert_eq!(found.taps, vec![ManaTap::Basic { land: ObjectId(1), color: Color::Green }]);
    assert_eq!(found.waste, 0);
}

#[test]
fn floating_mana_settles_hybrid_symbols_one_by_one() {
    // The floating white goes to W/G, so W/B still needs the Plains.
    let mut board = board(vec![land(1, &[Color::White])]);
    board.floating[Color::White.index()] = 1;
    board.floating[Color::Green.index()] = 1;
    let cost = ManaCost::with_hybrid(
        0,
        vec![],
        vec![
            HybridManaSymbol { first: Color::White, second: Color::Green },
            HybridManaSymbol { first: Color::White, second: Color::Black },
        ],
    );
    let found = plan(&board, &cost).expect("payable");
    assert_eq!(found.taps, vec![ManaTap::Basic { land: ObjectId(1), color: Color::White }]);
    assert_eq!(found.waste, 1);
}

#[test]
fn a_large_floating_pool_reports_its_whole_surplus() {
    let mut board = board(vec![land(1, &[Color::Blue])]);
    board.floating[Color::Red.index()] = 200;
    let found = plan(&board, &ManaCost::with_colors(1, vec![Color::Blue])).expect("payable");
    assert_eq!(found.taps, vec![ManaTap::Basic { land: ObjectId(1), color: Color::Blue }]);
    assert_eq!(found.waste, 199);
}
