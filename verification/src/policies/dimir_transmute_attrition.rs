//! A blue-black attrition policy whose transmute turns `Muddle the Mixture`
//! into a red-white mana-value-two payoff.

use vstd::prelude::*;
use crate::CodePolicy;
use crate::planner::board::{Color, ObjectId, PlayerId, Step, Target};
use crate::policies::dimir_transmute_convoke::helix_selection;
use crate::policies::moves::{
    burn_target, card_in_hand, choose_tap_color, damage_target, first_card_id, first_id, hand_card,
    hand_land_choice, lands_making, lands_producing, ready_land_choice, select_battlefield_land,
    select_hand_land, tap_color,
};
use crate::policies::select::CardFilter;
use crate::policies::view::{
    ActionView, CastRequest, DecisionSelection, GameView, PolicyAction, SelectionView, pool_amount,
};

verus! {

/// The cards in hand the policy plans around.
pub struct AttritionHand {
    pub muddle: bool,
    pub gasp: bool,
    pub helix: bool,
    pub char: bool,
}

/// Which of the policy's cards are in hand.
pub open spec fn attrition_hand(view: GameView) -> AttritionHand {
    AttritionHand {
        muddle: hand_card(view, "RAV-MUDDLE-THE-MIXTURE") is Some,
        gasp: hand_card(view, "RAV-LAST-GASP") is Some,
        helix: hand_card(view, "RAV-LIGHTNING-HELIX") is Some,
        char: hand_card(view, "RAV-CHAR") is Some,
    }
}

/// The colour of land to play.
pub open spec fn attrition_land_color(view: GameView, hand: AttritionHand) -> Option<Color> {
    if hand.muddle && lands_making(view, Color::Blue) < 2 {
        Some(Color::Blue)
    } else if hand.gasp && lands_making(view, Color::Black) == 0 {
        Some(Color::Black)
    } else if hand.helix && lands_making(view, Color::White) == 0 {
        Some(Color::White)
    } else if (hand.helix || hand.char) && lands_making(view, Color::Red) == 0 {
        Some(Color::Red)
    } else {
        None
    }
}

/// The colour of mana to make.
pub open spec fn attrition_mana_color(view: GameView, hand: AttritionHand) -> Option<Color> {
    if hand.muddle && pool_amount(view, Color::Blue) < 2 {
        Some(Color::Blue)
    } else if hand.gasp && pool_amount(view, Color::Black) == 0 {
        Some(Color::Black)
    } else if hand.helix && pool_amount(view, Color::White) == 0 {
        Some(Color::White)
    } else if (hand.helix || hand.char) && pool_amount(view, Color::Red) == 0 {
        Some(Color::Red)
    } else {
        None
    }
}

/// Transmute the `Muddle the Mixture` in hand once two blue and a third mana
/// float; the private search that follows supplies the candidates.
pub open spec fn muddle_transmute(view: GameView) -> Option<ObjectId> {
    if pool_amount(view, Color::Blue) < 2 || view.mana_total < 3 {
        None
    } else {
        hand_card(view, "RAV-MUDDLE-THE-MIXTURE")
    }
}

/// The policy's move in its own main phase with priority and an empty stack.
pub open spec fn transmute_attrition_main(view: GameView) -> ActionView {
    let hand = attrition_hand(view);
    let land_color = attrition_land_color(view, hand);
    let mana_color = attrition_mana_color(view, hand);
    let total = view.mana_total;
    let victim = first_id(view.opponent_battlefield@, CardFilter::Creature);
    if view.lands_played == 0 && hand_land_choice(view, land_color) is Some {
        ActionView::PlayLand { card: hand_land_choice(view, land_color)->0 }
    } else if muddle_transmute(view) is Some {
        ActionView::Transmute { card: muddle_transmute(view)->0 }
    } else if hand.gasp && pool_amount(view, Color::Black) >= 1 && victim is Some {
        ActionView::Cast {
            card: hand_card(view, "RAV-LAST-GASP")->0,
            targets: seq![Target::Permanent(victim->0)],
            convoke: Seq::empty(),
        }
    } else if hand.helix && pool_amount(view, Color::White) >= 1 && pool_amount(view, Color::Red) >= 1
        && total >= 2 {
        ActionView::Cast {
            card: hand_card(view, "RAV-LIGHTNING-HELIX")->0,
            targets: seq![burn_target(view)],
            convoke: Seq::empty(),
        }
    } else if hand.char && view.own_life > 2 && pool_amount(view, Color::Red) >= 1 && total >= 3 {
        ActionView::Cast { card: hand_card(view, "RAV-CHAR")->0, targets: seq![burn_target(view)], convoke: Seq::empty() }
    } else if (hand.muddle || hand.gasp || hand.helix || hand.char) && ready_land_choice(view, mana_color) is Some {
        let land = view.own_battlefield@[ready_land_choice(view, mana_color)->0];
        ActionView::ActivateManaAbility { land: land.id, color: tap_color(mana_color, land) }
    } else {
        ActionView::PassPriority
    }
}

/// The Dimir transmute-attrition policy's move for `player` given `view`.
pub open spec fn dimir_transmute_attrition_move(player: PlayerId, view: GameView) -> ActionView {
    if view.player != player || view.decision_player != player {
        ActionView::PassPriority
    } else if view.pending_decision is Some {
        let decision = view.pending_decision->0;
        ActionView::SubmitDecision {
            decision: decision.id,
            selection: SelectionView::Objects(helix_selection(decision.candidates@)),
        }
    } else if view.step == Step::DeclareAttackers && view.active_player == player && !view.attackers_declared {
        ActionView::DeclareAttackers { attackers: Seq::empty() }
    } else if view.step == Step::DeclareBlockers && view.active_player != player && !view.blockers_declared {
        ActionView::DeclareBlockers { assignments: Seq::empty() }
    } else if !(view.step == Step::PrecombatMain || view.step == Step::PostcombatMain) {
        ActionView::PassPriority
    } else if view.active_player != player || view.priority != player || view.stack_depth != 0 {
        ActionView::PassPriority
    } else {
        transmute_attrition_main(view)
    }
}

/// A blue-black attrition fixture policy whose transmute search turns Muddle
/// into a selected red-white mana-value-two payoff.
#[derive(Clone, Copy, Debug, PartialEq, Eq, Structural)]
pub struct DimirTransmuteAttritionPolicy {
    player: PlayerId,
}

impl DimirTransmuteAttritionPolicy {
    /// The seat this policy plays.
    pub closed spec fn seat(self) -> PlayerId {
        self.player
    }

    pub fn new(player: PlayerId) -> (policy: DimirTransmuteAttritionPolicy)
        ensures
            policy.seat() == player,
    {
        DimirTransmuteAttritionPolicy { player }
    }
}

impl CodePolicy for DimirTransmuteAttritionPolicy {
    /// The policy's identifier.
    fn id(&self) -> (id: &'static str)
        ensures
            id@ == "rav.dimir-transmute-attrition.v1"@,
    {
        "rav.dimir-transmute-attrition.v1"
    }

    /// The move this policy proposes given `view`.
    fn propose_move(&mut self, view: &GameView) -> (action: PolicyAction)
        ensures
            action@ == dimir_transmute_attrition_move(old(self).seat(), *view),
            *final(self) == *old(self),
    {
        let player = self.player;
        if view.player != player || view.decision_player != player {
            return PolicyAction::PassPriority;
        }
        if let Some(decision) = &view.pending_decision {
            let selected = match first_card_id(&decision.candidates, CardFilter::Named("RAV-LIGHTNING-HELIX")) {
                Some(id) => vec![id],
                None => Vec::new(),
            };
            assert(selected@ =~= helix_selection(decision.candidates@));
            return PolicyAction::SubmitDecision { decision: decision.id, selection: DecisionSelection::Objects(selected) };
        }
        if view.step == Step::DeclareAttackers && view.active_player == player && !view.attackers_declared {
            return PolicyAction::DeclareAttackers { attackers: Vec::new() };
        }
        if view.step == Step::DeclareBlockers && view.active_player != player && !view.blockers_declared {
            return PolicyAction::DeclareBlockers { assignments: Vec::new() };
        }
        if !(view.step == Step::PrecombatMain || view.step == Step::PostcombatMain) {
            return PolicyAction::PassPriority;
        }
        if view.active_player != player || view.priority != player || view.stack_depth != 0 {
            return PolicyAction::PassPriority;
        }
        main_move(view)
    }
}

/// Which of the policy's cards are in hand.
fn read_hand(view: &GameView) -> (hand: AttritionHand)
    ensures
        hand == attrition_hand(*view),
{
    AttritionHand {
        muddle: card_in_hand(view, "RAV-MUDDLE-THE-MIXTURE").is_some(),
        gasp: card_in_hand(view, "RAV-LAST-GASP").is_some(),
        helix: card_in_hand(view, "RAV-LIGHTNING-HELIX").is_some(),
        char: card_in_hand(view, "RAV-CHAR").is_some(),
    }
}

/// The colour of land to play.
fn land_color(view: &GameView, hand: &AttritionHand) -> (color: Option<Color>)
    ensures
        color == attrition_land_color(*view, *hand),
{
    if hand.muddle && lands_producing(view, Color::Blue) < 2 {
        Some(Color::Blue)
    } else if hand.gasp && lands_producing(view, Color::Black) == 0 {
        Some(Color::Black)
    } else if hand.helix && lands_producing(view, Color::White) == 0 {
        Some(Color::White)
    } else if (hand.helix || hand.char) && lands_producing(view, Color::Red) == 0 {
        Some(Color::Red)
    } else {
        None
    }
}

/// The colour of mana to make.
fn mana_color(view: &GameView, hand: &AttritionHand) -> (color: Option<Color>)
    ensures
        color == attrition_mana_color(*view, *hand),
{
    if hand.muddle && view.mana[Color::Blue.index()] < 2 {
        Some(Color::Blue)
    } else if hand.gasp && view.mana[Color::Black.index()] == 0 {
        Some(Color::Black)
    } else if hand.helix && view.mana[Color::White.index()] == 0 {
        Some(Color::White)
    } else if (hand.helix || hand.char) && view.mana[Color::Red.index()] == 0 {
        Some(Color::Red)
    } else {
        None
    }
}

/// A one-target cast with no convoke.
fn cast_at(card: ObjectId, target: Target) -> (action: PolicyAction)
    ensures
        action@ == (ActionView::Cast { card, targets: seq![target], convoke: Seq::empty() }),
{
    let targets = vec![target];
    assert(targets@ =~= seq![target]);
    PolicyAction::Cast(CastRequest { card, targets, convoke: Vec::new() })
}

/// The policy's move in its own main phase with priority and an empty stack.
fn main_move(view: &GameView) -> (action: PolicyAction)
    ensures
        action@ == transmute_attrition_main(*view),
{
    let hand = read_hand(view);
    let land_wanted = land_color(view, &hand);
    let mana_wanted = mana_color(view, &hand);
    let total = view.mana_total;
    if view.lands_played == 0 {
        if let Some(land) = select_hand_land(view, land_wanted) {
            return PolicyAction::PlayLand { card: land };
        }
    }
    if view.mana[Color::Blue.index()] >= 2 && total >= 3 {
        if let Some(card) = card_in_hand(view, "RAV-MUDDLE-THE-MIXTURE") {
            return PolicyAction::Transmute { card };
        }
    }
    if let Some(card) = card_in_hand(view, "RAV-LAST-GASP") {
        if view.mana[Color::Black.index()] >= 1 {
            if let Some(victim) = first_card_id(&view.opponent_battlefield, CardFilter::Creature) {
                return cast_at(card, Target::Permanent(victim));
            }
        }
    }
    if let Some(card) = card_in_hand(view, "RAV-LIGHTNING-HELIX") {
        if view.mana[Color::White.index()] >= 1 && view.mana[Color::Red.index()] >= 1 && total >= 2 {
            return cast_at(card, damage_target(view));
        }
    }
    if let Some(card) = card_in_hand(view, "RAV-CHAR") {
        if view.own_life > 2 && view.mana[Color::Red.index()] >= 1 && total >= 3 {
            return cast_at(card, damage_target(view));
        }
    }
    if hand.muddle || hand.gasp || hand.helix || hand.char {
        if let Some(i) = select_battlefield_land(view, mana_wanted) {
            proof {
                crate::policies::moves::lemma_ready_land_choice_has_colors(*view, mana_wanted);
            }
            let land = &view.own_battlefield[i];
            let color = choose_tap_color(mana_wanted, land);
            return PolicyAction::ActivateManaAbility { land: land.id, color };
        }
    }
    PolicyAction::PassPriority
}

} // verus!
