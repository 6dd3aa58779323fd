//! A Golgari pressure policy: develop green, remove blockers with `Last
//! Gasp` at instant speed, and convoke tokens and a Siege Wurm.

use vstd::prelude::*;
use crate::CodePolicy;
use crate::planner::board::{Color, ObjectId, PlayerId, Step, Target};
use crate::policies::moves::{
    all_attackers, attackers, card_in_hand, first_card_id, first_id, green_convoke, hand_card, hand_land_choice,
    legal_green_convoke, select_hand_land,
};
use crate::policies::select::{CardFilter, card_ids, count_cards, find_card, has_color, passes};
use crate::policies::view::{
    ActionView, CastRequest, CombatBlock, GameView, PolicyAction, count_where, first_where, ids_where,
    lemma_first_where_holds, pool_amount,
};

verus! {

/// The colour of land to play: green until two green sources, then black for
/// a held `Last Gasp` with a target and no black source, else green.
pub open spec fn press_land_color(view: GameView) -> Color {
    let green_sources = count_where(view.own_battlefield@, passes(CardFilter::MakesColor(Color::Green)));
    let black_sources = count_where(view.own_battlefield@, passes(CardFilter::MakesColor(Color::Black)));
    if green_sources < 2 {
        Color::Green
    } else if first_id(view.opponent_battlefield@, CardFilter::Creature) is Some && hand_card(
        view,
        "RAV-LAST-GASP",
    ) is Some && black_sources == 0 {
        Color::Black
    } else {
        Color::Green
    }
}

/// The colour of mana wanted: black for a castable `Last Gasp`, else green.
pub open spec fn press_mana_color(view: GameView) -> Color {
    if hand_card(view, "RAV-LAST-GASP") is Some && first_id(view.opponent_battlefield@, CardFilter::Creature) is Some
        && pool_amount(view, Color::Black) == 0 {
        Color::Black
    } else {
        Color::Green
    }
}

/// The card to tap: the first untapped one making the wanted colour, else
/// the first untapped land with a mana ability.
pub open spec fn press_source(view: GameView) -> Option<int> {
    match first_where(view.own_battlefield@, passes(CardFilter::UntappedMakesColor(press_mana_color(view)))) {
        Some(i) => Some(i),
        None => first_where(view.own_battlefield@, passes(CardFilter::ReadyLand)),
    }
}

/// The source to tap and the colour: the wanted colour when the source makes
/// it, else the source's first colour.
pub open spec fn press_mana(view: GameView) -> Option<(ObjectId, Color)> {
    match press_source(view) {
        Some(i) => {
            let card = view.own_battlefield@[i];
            let wanted = press_mana_color(view);
            Some(
                (
                    card.id,
                    if card.mana_colors@.contains(wanted) {
                        wanted
                    } else {
                        card.mana_colors@[0]
                    },
                ),
            )
        },
        None => None,
    }
}

/// Untapped creatures in the order the Wurm press spends them as blockers.
pub open spec fn press_blockers(view: GameView) -> Seq<ObjectId> {
    let cards = view.own_battlefield@;
    ids_where(cards, passes(CardFilter::PressBlocker(0))) + ids_where(cards, passes(CardFilter::PressBlocker(1)))
        + ids_where(cards, passes(CardFilter::PressBlocker(2))) + ids_where(cards, passes(CardFilter::PressBlocker(3)))
}

/// Each attacker in turn is blocked by the next blocker in press order.
pub open spec fn press_blocks(view: GameView) -> Seq<CombatBlock> {
    let blockers = press_blockers(view);
    let attacking = view.combat_attackers@;
    let n = if attacking.len() < blockers.len() {
        attacking.len()
    } else {
        blockers.len()
    };
    Seq::new(n, |k: int| CombatBlock { attacker: attacking[k].id, blocker: blockers[k] })
}

/// The policy's move in its own main phase with an empty stack.
pub open spec fn wurm_press_main(view: GameView) -> ActionView {
    let total = view.mana_total;
    let land = hand_land_choice(view, Some(press_land_color(view)));
    if view.lands_played == 0 && land is Some {
        ActionView::PlayLand { card: land->0 }
    } else if hand_card(view, "RAV-SCATTER-THE-SEEDS") is Some && green_convoke(view, 2, 3) is Some {
        ActionView::Cast {
            card: hand_card(view, "RAV-SCATTER-THE-SEEDS")->0,
            targets: Seq::empty(),
            convoke: green_convoke(view, 2, 3)->0,
        }
    } else if hand_card(view, "RAV-SIEGE-WURM") is Some && green_convoke(view, 2, 5) is Some {
        ActionView::Cast {
            card: hand_card(view, "RAV-SIEGE-WURM")->0,
            targets: Seq::empty(),
            convoke: green_convoke(view, 2, 5)->0,
        }
    } else if hand_card(view, "RAV-GOLGARI-BROWNSCALE") is Some && pool_amount(view, Color::Green) >= 2 && (
    if total >= 2 {
        total - 2
    } else {
        0
    }) >= 1 {
        ActionView::Cast {
            card: hand_card(view, "RAV-GOLGARI-BROWNSCALE")->0,
            targets: Seq::empty(),
            convoke: Seq::empty(),
        }
    } else {
        match press_mana(view) {
            Some((land, color)) => ActionView::ActivateManaAbility { land, color },
            None => ActionView::PassPriority,
        }
    }
}

/// The Golgari Wurm-press policy's move for `player` given `view`.
pub open spec fn golgari_wurm_press_move(player: PlayerId, view: GameView) -> ActionView {
    let gasp = hand_card(view, "RAV-LAST-GASP");
    let target = first_id(view.opponent_battlefield@, CardFilter::Creature);
    if view.player != player || view.decision_player != player {
        ActionView::PassPriority
    } else if view.step == Step::DeclareAttackers && view.active_player == player && !view.attackers_declared {
        ActionView::DeclareAttackers { attackers: all_attackers(view) }
    } else if view.step == Step::DeclareBlockers && view.active_player != player && !view.blockers_declared {
        ActionView::DeclareBlockers { assignments: press_blocks(view) }
    } else if !(view.step == Step::PrecombatMain || view.step == Step::PostcombatMain) {
        ActionView::PassPriority
    } else if view.priority != player {
        ActionView::PassPriority
    } else if gasp is Some && target is Some && pool_amount(view, Color::Black) >= 1 {
        ActionView::Cast { card: gasp->0, targets: seq![Target::Permanent(target->0)], convoke: Seq::empty() }
    } else if view.active_player != player || view.stack_depth != 0 {
        ActionView::PassPriority
    } else {
        wurm_press_main(view)
    }
}

/// A Golgari pressure policy built around convoke and `Last Gasp`.
#[derive(Clone, Copy, Debug, PartialEq, Eq, Structural)]
pub struct GolgariWurmPressPolicy {
    player: PlayerId,
}

impl GolgariWurmPressPolicy {
    /// The seat this policy plays.
    pub closed spec fn seat(self) -> PlayerId {
        self.player
    }

    pub fn new(player: PlayerId) -> (policy: GolgariWurmPressPolicy)
        ensures
            policy.seat() == player,
    {
        GolgariWurmPressPolicy { player }
    }
}

impl CodePolicy for GolgariWurmPressPolicy {
    /// The policy's identifier.
    fn id(&self) -> (id: &'static str)
        ensures
            id@ == "rav.golgari-wurm-press.v1"@,
    {
        "rav.golgari-wurm-press.v1"
    }

    /// The move this policy proposes given `view`.
    fn propose_move(&mut self, view: &GameView) -> (action: PolicyAction)
        ensures
            action@ == golgari_wurm_press_move(old(self).seat(), *view),
            *final(self) == *old(self),
    {
        let player = self.player;
        if view.player != player || view.decision_player != player {
            return PolicyAction::PassPriority;
        }
        if view.step == Step::DeclareAttackers && view.active_player == player && !view.attackers_declared {
            return PolicyAction::DeclareAttackers { attackers: attackers(view) };
        }
        if view.step == Step::DeclareBlockers && view.active_player != player && !view.blockers_declared {
            return PolicyAction::DeclareBlockers { assignments: defensive_assignments(view) };
        }
        if !(view.step == Step::PrecombatMain || view.step == Step::PostcombatMain) {
            return PolicyAction::PassPriority;
        }
        if view.priority != player {
            return PolicyAction::PassPriority;
        }
        if let Some(gasp) = card_in_hand(view, "RAV-LAST-GASP") {
            if let Some(target) = first_card_id(&view.opponent_battlefield, CardFilter::Creature) {
                if view.mana[Color::Black.index()] >= 1 {
                    let targets = vec![Target::Permanent(target)];
                    assert(targets@ =~= seq![Target::Permanent(target)]);
                    return PolicyAction::Cast(CastRequest { card: gasp, targets, convoke: Vec::new() });
                }
            }
        }
        if view.active_player != player || view.stack_depth != 0 {
            return PolicyAction::PassPriority;
        }
        main_move(view)
    }
}

/// The colour of land to play.
fn land_color(view: &GameView) -> (color: Color)
    ensures
        color == press_land_color(*view),
{
    let green_sources = count_cards(&view.own_battlefield, CardFilter::MakesColor(Color::Green));
    let black_sources = count_cards(&view.own_battlefield, CardFilter::MakesColor(Color::Black));
    if green_sources < 2 {
        Color::Green
    } else if first_card_id(&view.opponent_battlefield, CardFilter::Creature).is_some() && card_in_hand(
        view,
        "RAV-LAST-GASP",
    ).is_some() && black_sources == 0 {
        Color::Black
    } else {
        Color::Green
    }
}

/// The source to tap and the colour to tap it for.
fn select_mana_ability(view: &GameView) -> (choice: Option<(ObjectId, Color)>)
    ensures
        choice == press_mana(*view),
{
    let wanted = if card_in_hand(view, "RAV-LAST-GASP").is_some() && first_card_id(
        &view.opponent_battlefield,
        CardFilter::Creature,
    ).is_some() && view.mana[Color::Black.index()] == 0 {
        Color::Black
    } else {
        Color::Green
    };
    assert(wanted == press_mana_color(*view));
    let found = match find_card(&view.own_battlefield, CardFilter::UntappedMakesColor(wanted)) {
        Some(i) => Some(i),
        None => find_card(&view.own_battlefield, CardFilter::ReadyLand),
    };
    match found {
        Some(i) => {
            proof {
                lemma_first_where_holds(view.own_battlefield@, passes(CardFilter::UntappedMakesColor(wanted)));
                lemma_first_where_holds(view.own_battlefield@, passes(CardFilter::ReadyLand));
            }
            let card = &view.own_battlefield[i];
            let color = if has_color(&card.mana_colors, wanted) {
                wanted
            } else {
                card.mana_colors[0]
            };
            Some((card.id, color))
        },
        None => None,
    }
}

/// Each attacker in turn is blocked by the next blocker in press order.
fn defensive_assignments(view: &GameView) -> (assignments: Vec<CombatBlock>)
    ensures
        assignments@ == press_blocks(*view),
{
    let mut blockers = card_ids(&view.own_battlefield, CardFilter::PressBlocker(0));
    let mut second = card_ids(&view.own_battlefield, CardFilter::PressBlocker(1));
    let mut third = card_ids(&view.own_battlefield, CardFilter::PressBlocker(2));
    let mut fourth = card_ids(&view.own_battlefield, CardFilter::PressBlocker(3));
    blockers.append(&mut second);
    blockers.append(&mut third);
    blockers.append(&mut fourth);
    let mut assignments: Vec<CombatBlock> = Vec::new();
    let mut k: usize = 0;
    while k < view.combat_attackers.len() && k < blockers.len()
        invariant
            k <= view.combat_attackers@.len(),
            k <= blockers@.len(),
            blockers@ == press_blockers(*view),
            assignments@ =~= Seq::new(
                k as nat,
                |q: int| CombatBlock { attacker: view.combat_attackers@[q].id, blocker: blockers@[q] },
            ),
        decreases view.combat_attackers@.len() - k,
    {
        assignments.push(CombatBlock { attacker: view.combat_attackers[k].id, blocker: blockers[k] });
        k = k + 1;
    }
    assignments
}

/// The policy's move in its own main phase with an empty stack.
fn main_move(view: &GameView) -> (action: PolicyAction)
    ensures
        action@ == wurm_press_main(*view),
{
    let total = view.mana_total;
    if view.lands_played == 0 {
        if let Some(land) = select_hand_land(view, Some(land_color(view))) {
            return PolicyAction::PlayLand { card: land };
        }
    }
    if let Some(card) = card_in_hand(view, "RAV-SCATTER-THE-SEEDS") {
        if let Some(convoke) = legal_green_convoke(view, 2, 3) {
            return PolicyAction::Cast(CastRequest { card, targets: Vec::new(), convoke });
        }
    }
    if let Some(card) = card_in_hand(view, "RAV-SIEGE-WURM") {
        if let Some(convoke) = legal_green_convoke(view, 2, 5) {
            return PolicyAction::Cast(CastRequest { card, targets: Vec::new(), convoke });
        }
    }
    if let Some(card) = card_in_hand(view, "RAV-GOLGARI-BROWNSCALE") {
        if view.mana[Color::Green.index()] >= 2 && total.saturating_sub(2) >= 1 {
            return PolicyAction::Cast(CastRequest { card, targets: Vec::new(), convoke: Vec::new() });
        }
    }
    if let Some((land, color)) = select_mana_ability(view) {
        return PolicyAction::ActivateManaAbility { land, color };
    }
    PolicyAction::PassPriority
}

} // verus!
