//! The decisions the reference policies share: which land to play or tap,
//! what to aim burn at, how to convoke, how to block.

use vstd::prelude::*;
use crate::planner::board::{Color, ObjectId, PlayerId, Target};
use crate::policies::select::{CardFilter, card_ids, count_cards, find_card, passes};
use crate::policies::view::{CardView, CombatBlock, ConvokeContribution, ConvokePayment, GameView, first_where, ids_where, pool_amount};

verus! {

/// The id of the first card of `cards` passing `filter`.
pub open spec fn first_id(cards: Seq<CardView>, filter: CardFilter) -> Option<ObjectId> {
    match first_where(cards, passes(filter)) {
        Some(i) => Some(cards[i].id),
        None => None,
    }
}

/// The id of the first card of `cards` passing `filter`.
pub fn first_card_id(cards: &Vec<CardView>, filter: CardFilter) -> (id: Option<ObjectId>)
    ensures
        id == first_id(cards@, filter),
{
    match find_card(cards, filter) {
        Some(i) => Some(cards[i].id),
        None => None,
    }
}

/// The card in hand with definition id `definition`.
pub open spec fn hand_card(view: GameView, definition: &'static str) -> Option<ObjectId> {
    first_id(view.hand@, CardFilter::Named(definition))
}

/// The card in hand with definition id `definition`.
pub fn card_in_hand(view: &GameView, definition: &'static str) -> (id: Option<ObjectId>)
    ensures
        id == hand_card(*view, definition),
{
    first_card_id(&view.hand, CardFilter::Named(definition))
}

/// The land to play: the first in hand making `desired`, else the first land.
pub open spec fn hand_land_choice(view: GameView, desired: Option<Color>) -> Option<ObjectId> {
    match desired {
        Some(color) => match first_id(view.hand@, CardFilter::LandOf(color)) {
            Some(id) => Some(id),
            None => first_id(view.hand@, CardFilter::Land),
        },
        None => first_id(view.hand@, CardFilter::Land),
    }
}

/// The land to play: the first in hand making `desired`, else the first land.
pub fn select_hand_land(view: &GameView, desired: Option<Color>) -> (land: Option<ObjectId>)
    ensures
        land == hand_land_choice(*view, desired),
{
    if let Some(color) = desired {
        let found = first_card_id(&view.hand, CardFilter::LandOf(color));
        if found.is_some() {
            return found;
        }
    }
    first_card_id(&view.hand, CardFilter::Land)
}

/// The untapped land to tap: the first making `desired`, else the first one.
pub open spec fn ready_land_choice(view: GameView, desired: Option<Color>) -> Option<int> {
    match desired {
        Some(color) => match first_where(view.own_battlefield@, passes(CardFilter::ReadyLandOf(color))) {
            Some(i) => Some(i),
            None => first_where(view.own_battlefield@, passes(CardFilter::ReadyLand)),
        },
        None => first_where(view.own_battlefield@, passes(CardFilter::ReadyLand)),
    }
}

/// The untapped land to tap: the first making `desired`, else the first one.
pub fn select_battlefield_land(view: &GameView, desired: Option<Color>) -> (land: Option<usize>)
    ensures
        match land {
            Some(i) => ready_land_choice(*view, desired) == Some(i as int) && i < view.own_battlefield@.len(),
            None => ready_land_choice(*view, desired) is None,
        },
{
    if let Some(color) = desired {
        let found = find_card(&view.own_battlefield, CardFilter::ReadyLandOf(color));
        if found.is_some() {
            return found;
        }
    }
    find_card(&view.own_battlefield, CardFilter::ReadyLand)
}

/// The chosen land is one of the seat's untapped lands with a mana colour.
pub proof fn lemma_ready_land_choice_has_colors(view: GameView, desired: Option<Color>)
    ensures
        ready_land_choice(view, desired) matches Some(i) ==> 0 <= i < view.own_battlefield@.len()
            && view.own_battlefield@[i].mana_colors@.len() > 0,
{
    crate::policies::view::lemma_first_where_holds(view.own_battlefield@, passes(CardFilter::ReadyLand));
    if let Some(color) = desired {
        crate::policies::view::lemma_first_where_holds(
            view.own_battlefield@,
            passes(CardFilter::ReadyLandOf(color)),
        );
    }
}

/// The colour to tap a land for: `desired` when the land makes it, else the
/// land's first colour.
pub open spec fn tap_color(desired: Option<Color>, land: CardView) -> Color {
    match desired {
        Some(color) => if land.mana_colors@.contains(color) {
            color
        } else {
            land.mana_colors@[0]
        },
        None => land.mana_colors@[0],
    }
}

/// The colour to tap a land for: `desired` when the land makes it, else the
/// land's first colour.
pub fn choose_tap_color(desired: Option<Color>, land: &CardView) -> (color: Color)
    requires
        land.mana_colors@.len() > 0,
    ensures
        color == tap_color(desired, *land),
{
    match desired {
        Some(color) => if crate::policies::select::has_color(&land.mana_colors, color) {
            color
        } else {
            land.mana_colors[0]
        },
        None => land.mana_colors[0],
    }
}

/// The first opponent's seat, or seat 0 when the view lists none.
pub open spec fn first_opponent(view: GameView) -> PlayerId {
    if view.opponent_life@.len() > 0 {
        view.opponent_life@[0].0
    } else {
        PlayerId(0)
    }
}

/// The first opponent's seat, or seat 0 when the view lists none.
pub fn opponent_seat(view: &GameView) -> (seat: PlayerId)
    ensures
        seat == first_opponent(*view),
{
    if view.opponent_life.len() > 0 {
        view.opponent_life[0].0
    } else {
        PlayerId(0)
    }
}

/// Burn goes at the first opposing creature, else at the first opponent.
pub open spec fn burn_target(view: GameView) -> Target {
    match first_id(view.opponent_battlefield@, CardFilter::Creature) {
        Some(id) => Target::Permanent(id),
        None => Target::Player(first_opponent(view)),
    }
}

/// Burn goes at the first opposing creature, else at the first opponent.
pub fn damage_target(view: &GameView) -> (target: Target)
    ensures
        target == burn_target(*view),
{
    match first_card_id(&view.opponent_battlefield, CardFilter::Creature) {
        Some(id) => Target::Permanent(id),
        None => Target::Player(opponent_seat(view)),
    }
}

/// How many of the seat's lands make `color`.
pub open spec fn lands_making(view: GameView, color: Color) -> nat {
    crate::policies::view::count_where(view.own_battlefield@, passes(CardFilter::LandOf(color)))
}

/// How many of the seat's lands make `color`.
pub fn lands_producing(view: &GameView, color: Color) -> (count: usize)
    ensures
        count == lands_making(*view, color),
{
    count_cards(&view.own_battlefield, CardFilter::LandOf(color))
}

/// Everything that can attack attacks.
pub open spec fn all_attackers(view: GameView) -> Seq<ObjectId> {
    ids_where(view.own_battlefield@, passes(CardFilter::CanAttack))
}

/// Everything that can attack attacks.
pub fn attackers(view: &GameView) -> (ids: Vec<ObjectId>)
    ensures
        ids@ == all_attackers(*view),
{
    card_ids(&view.own_battlefield, CardFilter::CanAttack)
}

/// Each attacker in turn is blocked by the next untapped creature, while
/// both last.
pub open spec fn blocks(view: GameView) -> Seq<CombatBlock> {
    let blockers = ids_where(view.own_battlefield@, passes(CardFilter::UntappedCreature));
    let attacking = view.combat_attackers@;
    let n = if attacking.len() < blockers.len() {
        attacking.len()
    } else {
        blockers.len()
    };
    Seq::new(n, |k: int| CombatBlock { attacker: attacking[k].id, blocker: blockers[k] })
}

/// Each attacker in turn is blocked by the next untapped creature, while
/// both last.
pub fn defensive_assignments(view: &GameView) -> (assignments: Vec<CombatBlock>)
    ensures
        assignments@ == blocks(*view),
{
    let blockers = card_ids(&view.own_battlefield, CardFilter::UntappedCreature);
    let mut assignments: Vec<CombatBlock> = Vec::new();
    let mut k: usize = 0;
    while k < view.combat_attackers.len() && k < blockers.len()
        invariant
            k <= view.combat_attackers@.len(),
            k <= blockers@.len(),
            blockers@ == ids_where(view.own_battlefield@, passes(CardFilter::UntappedCreature)),
            assignments@ =~= Seq::new(
                k as nat,
                |q: int| CombatBlock { attacker: view.combat_attackers@[q].id, blocker: blockers@[q] },
            ),
        decreases view.combat_attackers@.len() - k,
    {
        assignments.push(CombatBlock { attacker: view.combat_attackers[k].id, blocker: blockers[k] });
        k = k + 1;
    }
    assignments
}

/// The convoke payment for a spell costing `colored_green` green and
/// `generic` generic mana: floating mana pays first, and untapped green
/// creatures, in order, pay what it cannot; `None` when they are too few or
/// the pool cannot cover its share.
pub open spec fn green_convoke(view: GameView, colored_green: u8, generic: u8) -> Option<Seq<ConvokePayment>> {
    let creatures = ids_where(view.own_battlefield@, passes(CardFilter::UntappedGreenCreature));
    let green = pool_amount(view, Color::Green);
    let from_creatures: int = if colored_green > green {
        colored_green - green
    } else {
        0
    };
    let remaining = colored_green - from_creatures;
    if from_creatures > creatures.len() || view.mana_total < remaining {
        None
    } else {
        let after_colored = view.mana_total - remaining;
        let generic_from: int = if generic > after_colored {
            generic - after_colored
        } else {
            0
        };
        if from_creatures + generic_from > creatures.len() {
            None
        } else {
            Some(
                Seq::new(
                    from_creatures as nat,
                    |k: int|
                        ConvokePayment {
                            creature: creatures[k],
                            contribution: ConvokeContribution::Color(Color::Green),
                        },
                ) + Seq::new(
                    generic_from as nat,
                    |k: int|
                        ConvokePayment {
                            creature: creatures[from_creatures + k],
                            contribution: ConvokeContribution::Generic,
                        },
                ),
            )
        }
    }
}

/// How many creatures of a convoke payment contribute green.
pub open spec fn green_contributions(payments: Seq<ConvokePayment>) -> nat
    decreases payments.len(),
{
    if payments.len() == 0 {
        0
    } else {
        green_contributions(payments.drop_last()) + if payments.last().contribution == ConvokeContribution::Color(
            Color::Green,
        ) {
            1nat
        } else {
            0nat
        }
    }
}

proof fn lemma_green_contributions(payments: Seq<ConvokePayment>, green: int)
    requires
        0 <= green <= payments.len(),
        forall|k: int| 0 <= k < green ==> (#[trigger] payments[k]).contribution == ConvokeContribution::Color(
            Color::Green,
        ),
        forall|k: int| green <= k < payments.len() ==> (#[trigger] payments[k]).contribution
            == ConvokeContribution::Generic,
    ensures
        green_contributions(payments) == green,
    decreases payments.len(),
{
    if payments.len() > 0 {
        if green == payments.len() {
            lemma_green_contributions(payments.drop_last(), green - 1);
        } else {
            lemma_green_contributions(payments.drop_last(), green);
        }
    }
}

/// A convoke payment covers its spell: the floating green plus the green
/// contributions pay the green symbols, and the rest of the floating mana plus
/// the other contributions pay the generic ones. Every contributor is an
/// untapped green creature of the seat's, each taken once, in board order.
pub proof fn convoke_payment_covers_its_cost(view: GameView, colored_green: u8, generic: u8)
    requires
        green_convoke(view, colored_green, generic) is Some,
    ensures
        ({
            let payments = green_convoke(view, colored_green, generic)->0;
            let creatures = ids_where(view.own_battlefield@, passes(CardFilter::UntappedGreenCreature));
            let green = green_contributions(payments);
            &&& pool_amount(view, Color::Green) + green >= colored_green
            &&& view.mana_total - (colored_green - green) + (payments.len() - green) >= generic
            &&& payments.len() <= creatures.len()
            &&& forall|k: int| 0 <= k < payments.len() ==> #[trigger] payments[k].creature == creatures[k]
        }),
{
    let creatures = ids_where(view.own_battlefield@, passes(CardFilter::UntappedGreenCreature));
    let payments = green_convoke(view, colored_green, generic)->0;
    let g = pool_amount(view, Color::Green);
    let from_creatures: int = if colored_green > g {
        colored_green - g
    } else {
        0
    };
    lemma_green_contributions(payments, from_creatures);
}

/// The convoke payment for a spell costing `colored_green` green and
/// `generic` generic mana, if the seat can make it.
pub fn legal_green_convoke(view: &GameView, colored_green: u8, generic: u8) -> (payments: Option<
    Vec<ConvokePayment>,
>)
    ensures
        match payments {
            Some(found) => green_convoke(*view, colored_green, generic) == Some(found@),
            None => green_convoke(*view, colored_green, generic) is None,
        },
{
    let creatures = card_ids(&view.own_battlefield, CardFilter::UntappedGreenCreature);
    let green = view.mana[Color::Green.index()];
    let from_creatures: u8 = colored_green.saturating_sub(green);
    if from_creatures as usize > creatures.len() {
        return None;
    }
    let remaining = colored_green - from_creatures;
    if view.mana_total < remaining {
        return None;
    }
    let after_colored = view.mana_total - remaining;
    let generic_from: u8 = generic.saturating_sub(after_colored);
    let required: usize = from_creatures as usize + generic_from as usize;
    if required > creatures.len() {
        return None;
    }
    let mut payments: Vec<ConvokePayment> = Vec::new();
    let mut k: usize = 0;
    while k < from_creatures as usize
        invariant
            k <= from_creatures,
            from_creatures <= creatures@.len(),
            payments@ =~= Seq::new(
                k as nat,
                |q: int|
                    ConvokePayment {
                        creature: creatures@[q],
                        contribution: ConvokeContribution::Color(Color::Green),
                    },
            ),
        decreases from_creatures - k,
    {
        payments.push(
            ConvokePayment { creature: creatures[k], contribution: ConvokeContribution::Color(Color::Green) },
        );
        k = k + 1;
    }
    let ghost colored_part = payments@;
    let mut g: usize = 0;
    while g < generic_from as usize
        invariant
            g <= generic_from,
            required == from_creatures + generic_from,
            required <= creatures@.len(),
            payments@ =~= colored_part + Seq::new(
                g as nat,
                |q: int|
                    ConvokePayment {
                        creature: creatures@[from_creatures + q],
                        contribution: ConvokeContribution::Generic,
                    },
            ),
        decreases generic_from - g,
    {
        payments.push(
            ConvokePayment {
                creature: creatures[from_creatures as usize + g],
                contribution: ConvokeContribution::Generic,
            },
        );
        g = g + 1;
    }
    Some(payments)
}

} // verus!
