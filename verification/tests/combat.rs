use cardbench_magic_policies::planner::board::{
    Board, CardType, Keyword, ObjectId, Opponent, Permanent, PlayerId, Role, Step, TargetRequirement,
};
use cardbench_magic_policies::planner::target::{is_permanent, matches_requirement, targetable};
use cardbench_magic_policies::planner::combat::{can_block, exchange, worst_case_damage, Exchange};
use cardbench_magic_policies::planner::threat::{my_clock, their_clock, turns_to_kill, winning_the_race};

fn creature(object: u64, power: i16, toughness: i16, keywords: &[Keyword]) -> Permanent {
    Permanent {
        object: ObjectId(object),
        controller: PlayerId(0),
        definition: Some("C"),
        tapped: false,
        can_attack: true,
        can_block: true,
        summoning_sick: false,
        is_creature: true,
        is_land: false,
        power,
        toughness,
        keywords: keywords.to_vec(),
        source: None,
        role: Role::Creature,
        controller_is_opponent: false,
    }
}

fn board(mine: Vec<Permanent>, theirs: Vec<Permanent>, my_life: i64, their_life: i64) -> Board {
    Board {
        me: PlayerId(0),
        my_life,
        opponents: vec![Opponent { seat: PlayerId(1), life: their_life }],
        turn: 5,
        step: Step::DeclareAttackers,
        is_my_turn: true,
        lands_played: 1,
        stack_depth: 0,
        attackers_declared: false,
        blockers_declared: false,
        hand: Vec::new(),
        attackers: Vec::new(),
        mine,
        theirs,
        floating: [0; 6],
    }
}

#[test]
fn first_strike_wins_an_otherwise_even_exchange() {
    let attacker = creature(1, 2, 2, &[Keyword::FirstStrike]);
    let blocker = creature(2, 2, 2, &[]);
    assert_eq!(exchange(&attacker, &blocker), Exchange { attacker_dies: false, blocker_dies: true });
}

#[test]
fn deathtouch_kills_regardless_of_power() {
    let attacker = creature(1, 1, 1, &[Keyword::Deathtouch]);
    let blocker = creature(2, 9, 9, &[]);
    let result = exchange(&attacker, &blocker);
    assert!(result.blocker_dies);
    assert!(result.attacker_dies);
}

#[test]
fn an_even_trade_kills_both() {
    let result = exchange(&creature(1, 3, 3, &[]), &creature(2, 3, 3, &[]));
    assert_eq!(result, Exchange { attacker_dies: true, blocker_dies: true });
}

#[test]
fn a_small_blocker_survives_nothing_and_kills_nothing() {
    let result = exchange(&creature(1, 1, 5, &[]), &creature(2, 0, 1, &[]));
    assert_eq!(result, Exchange { attacker_dies: false, blocker_dies: true });
    let wall = exchange(&creature(1, 1, 2, &[]), &creature(2, 0, 4, &[]));
    assert_eq!(wall, Exchange { attacker_dies: false, blocker_dies: false });
}

#[test]
fn a_ground_creature_cannot_block_a_flier() {
    let flier = creature(1, 2, 2, &[Keyword::Flying]);
    assert!(!can_block(&creature(2, 3, 3, &[]), &flier));
    assert!(can_block(&creature(3, 1, 3, &[Keyword::Reach]), &flier));
}

#[test]
fn the_worst_case_absorbs_the_largest_blockable_attackers() {
    let attackers = vec![creature(1, 5, 5, &[]), creature(2, 2, 2, &[]), creature(3, 3, 3, &[Keyword::Flying])];
    let blockers = vec![creature(4, 1, 1, &[])];
    // The single ground blocker absorbs the five-power attacker; the flier and
    // the two-power attacker connect.
    assert_eq!(worst_case_damage(&attackers, &blockers), 5);
}

#[test]
fn trample_is_never_absorbed_in_the_worst_case() {
    let attackers = vec![creature(1, 4, 4, &[Keyword::Trample])];
    let blockers = vec![creature(2, 1, 1, &[])];
    assert_eq!(worst_case_damage(&attackers, &blockers), 4);
}

#[test]
fn clocks_count_attacking_power_and_turns_round_up() {
    let board = board(
        vec![creature(1, 3, 3, &[]), creature(2, 2, 2, &[Keyword::Defender])],
        vec![creature(3, 4, 4, &[])],
        20,
        7,
    );
    assert_eq!(my_clock(&board), 3);
    assert_eq!(their_clock(&board), 4);
    assert_eq!(turns_to_kill(3, 7), Some(3));
    assert_eq!(turns_to_kill(0, 7), None);
    assert_eq!(turns_to_kill(5, -3), Some(0));
}

#[test]
fn a_faster_clock_wins_the_race() {
    let ahead = board(vec![creature(1, 5, 5, &[])], vec![creature(2, 1, 1, &[])], 20, 10);
    assert!(winning_the_race(&ahead, true));
    let behind = board(vec![creature(1, 1, 1, &[])], vec![creature(2, 5, 5, &[])], 10, 20);
    assert!(!winning_the_race(&behind, true));
}

#[test]
fn a_body_is_a_creature_bigger_than_a_one_one_token() {
    assert!(creature(1, 2, 1, &[]).is_body());
    assert!(!creature(1, 1, 0, &[]).is_body());
    let board = board(vec![creature(1, 3, 3, &[]), creature(2, 2, 2, &[])], vec![], 20, 20);
    assert_eq!(board.my_attacking_power(), 5);
    assert_eq!(board.my_creatures().len(), 2);
    assert!(board.their_creatures().is_empty());
}

#[test]
fn permanence_and_targeting_follow_the_card() {
    assert!(is_permanent(&vec![CardType::Instant, CardType::Artifact]));
    assert!(!is_permanent(&vec![CardType::Sorcery]));
    assert!(!targetable(&creature(1, 1, 1, &[Keyword::Shroud])));
    let mut theirs = creature(2, 2, 2, &[]);
    theirs.controller = PlayerId(1);
    theirs.controller_is_opponent = true;
    let board = board(vec![creature(1, 1, 1, &[])], vec![theirs.clone()], 20, 20);
    assert!(matches_requirement(&theirs, TargetRequirement::OpponentCreature, &board));
    assert!(!matches_requirement(&board.mine[0], TargetRequirement::OpponentCreature, &board));
    assert!(matches_requirement(&board.mine[0], TargetRequirement::Creature, &board));
}
