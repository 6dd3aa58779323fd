//! A broad RAV development policy combining Boros damage with the green
//! convoke creature package.
//!
//! The sequencing is easy to audit: turn a green board into a Wurm or token
//! burst, then use white-red burn to force a terminal game. Its full-convoke
//! submissions exercise payment validation beyond mana-only casts.

use vstd::prelude::*;
use crate::CodePolicy;
use crate::planner::board::{Color, PlayerId, Step};
use crate::policies::moves::{all_attackers, attackers, blocks, burn_target, card_in_hand, choose_tap_color, damage_target, defensive_assignments, green_convoke, hand_card, hand_land_choice, lands_making, lands_producing, legal_green_convoke, ready_land_choice, select_battlefield_land, select_hand_land, tap_color};

use crate::policies::view::{ActionView, CastRequest, GameView, PolicyAction, pool_amount};

verus! {

/// The cards in hand the policy plans around.
pub struct BurnHand {
    pub wurm: bool,
    pub scatter: bool,
    pub brownscale: bool,
    pub helix: bool,
    pub char: bool,
}

/// Which of the policy's cards are in hand.
pub open spec fn burn_hand(view: GameView) -> BurnHand {
    BurnHand {
        wurm: hand_card(view, "RAV-SIEGE-WURM") is Some,
        scatter: hand_card(view, "RAV-SCATTER-THE-SEEDS") is Some,
        brownscale: hand_card(view, "RAV-GOLGARI-BROWNSCALE") is Some,
        helix: hand_card(view, "RAV-LIGHTNING-HELIX") is Some,
        char: hand_card(view, "RAV-CHAR") is Some,
    }
}

/// The colour of land to play: green until two green lands, then white and
/// red for the burn.
pub open spec fn burn_land_color(view: GameView, hand: BurnHand) -> Option<Color> {
    if (hand.wurm || hand.scatter || hand.brownscale) && lands_making(view, Color::Green) < 2 {
        Some(Color::Green)
    } else if hand.helix && lands_making(view, Color::White) == 0 {
        Some(Color::White)
    } else if (hand.helix || hand.char) && lands_making(view, Color::Red) == 0 {
        Some(Color::Red)
    } else {
        None
    }
}

/// The colour of mana to make: two green for the green spells, then white
/// and red for the burn.
pub open spec fn burn_mana_color(view: GameView, hand: BurnHand) -> Option<Color> {
    if (hand.wurm || hand.scatter || hand.brownscale) && pool_amount(view, Color::Green) < 2 {
        Some(Color::Green)
    } else if hand.helix && pool_amount(view, Color::White) == 0 {
        Some(Color::White)
    } else if (hand.helix || hand.char) && pool_amount(view, Color::Red) == 0 {
        Some(Color::Red)
    } else {
        None
    }
}

/// The policy's move in its own main phase with priority and an empty stack.
pub open spec fn convoke_burn_main(view: GameView) -> ActionView {
    let hand = burn_hand(view);
    let land_color = burn_land_color(view, hand);
    let mana_color = burn_mana_color(view, hand);
    let total = view.mana_total;
    if view.lands_played == 0 && hand_land_choice(view, land_color) is Some {
        ActionView::PlayLand { card: hand_land_choice(view, land_color)->0 }
    } else if hand.wurm && green_convoke(view, 2, 5) is Some {
        ActionView::Cast {
            card: hand_card(view, "RAV-SIEGE-WURM")->0,
            targets: Seq::empty(),
            convoke: green_convoke(view, 2, 5)->0,
        }
    } else if hand.scatter && green_convoke(view, 2, 3) is Some {
        ActionView::Cast {
            card: hand_card(view, "RAV-SCATTER-THE-SEEDS")->0,
            targets: Seq::empty(),
            convoke: green_convoke(view, 2, 3)->0,
        }
    } else if hand.brownscale && pool_amount(view, Color::Green) >= 2 && total >= 3 {
        ActionView::Cast {
            card: hand_card(view, "RAV-GOLGARI-BROWNSCALE")->0,
            targets: Seq::empty(),
            convoke: Seq::empty(),
        }
    } else if hand.helix && pool_amount(view, Color::White) >= 1 && pool_amount(view, Color::Red) >= 1
        && total >= 2 {
        ActionView::Cast {
            card: hand_card(view, "RAV-LIGHTNING-HELIX")->0,
            targets: seq![burn_target(view)],
            convoke: Seq::empty(),
        }
    } else if hand.char && view.own_life > 2 && pool_amount(view, Color::Red) >= 1 && total >= 3 {
        ActionView::Cast { card: hand_card(view, "RAV-CHAR")->0, targets: seq![burn_target(view)], convoke: Seq::empty() }
    } else if (hand.wurm || hand.scatter || hand.brownscale || hand.helix || hand.char) && ready_land_choice(
        view,
        mana_color,
    ) is Some {
        let land = view.own_battlefield@[ready_land_choice(view, mana_color)->0];
        ActionView::ActivateManaAbility { land: land.id, color: tap_color(mana_color, land) }
    } else {
        ActionView::PassPriority
    }
}

/// The Boros convoke-burn policy's move for `player` given `view`.
pub open spec fn boros_convoke_burn_move(player: PlayerId, view: GameView) -> ActionView {
    if view.player != player || view.decision_player != player {
        ActionView::PassPriority
    } else if view.step == Step::DeclareAttackers && view.active_player == player && !view.attackers_declared {
        ActionView::DeclareAttackers { attackers: all_attackers(view) }
    } else if view.step == Step::DeclareBlockers && view.active_player != player && !view.blockers_declared {
        ActionView::DeclareBlockers { assignments: blocks(view) }
    } else if !(view.step == Step::PrecombatMain || view.step == Step::PostcombatMain) {
        ActionView::PassPriority
    } else if view.active_player != player || view.priority != player || view.stack_depth != 0 {
        ActionView::PassPriority
    } else {
        convoke_burn_main(view)
    }
}

/// A broad RAV development policy combining Boros damage with the
/// implemented green convoke creature package.
#[derive(Clone, Copy, Debug, PartialEq, Eq, Structural)]
pub struct BorosConvokeBurnPolicy {
    player: PlayerId,
}

impl BorosConvokeBurnPolicy {
    /// The seat this policy plays.
    pub closed spec fn seat(self) -> PlayerId {
        self.player
    }

    pub fn new(player: PlayerId) -> (policy: BorosConvokeBurnPolicy)
        ensures
            policy.seat() == player,
    {
        BorosConvokeBurnPolicy { player }
    }
}

impl CodePolicy for BorosConvokeBurnPolicy {
    /// The policy's identifier.
    fn id(&self) -> (id: &'static str)
        ensures
            id@ == "rav.boros-convoke-burn.v1"@,
    {
        "rav.boros-convoke-burn.v1"
    }

    /// The move this policy proposes given `view`.
    fn propose_move(&mut self, view: &GameView) -> (action: PolicyAction)
        ensures
            action@ == boros_convoke_burn_move(old(self).seat(), *view),
            *final(self) == *old(self),
    {
        let player = self.player;
        if view.player != player || view.decision_player != player {
            return PolicyAction::PassPriority;
        }
        if view.step == Step::DeclareAttackers && view.active_player == player && !view.attackers_declared {
            return PolicyAction::DeclareAttackers { attackers: attackers(view) };
        }
        if view.step == Step::DeclareBlockers && view.active_player != player && !view.blockers_declared {
            return PolicyAction::DeclareBlockers { assignments: defensive_assignments(view) };
        }
        if !(view.step == Step::PrecombatMain || view.step == Step::PostcombatMain) {
            return PolicyAction::PassPriority;
        }
        if view.active_player != player || view.priority != player || view.stack_depth != 0 {
            return PolicyAction::PassPriority;
        }
        main_move(view)
    }
}

/// Which of the policy's cards are in hand.
fn read_hand(view: &GameView) -> (hand: BurnHand)
    ensures
        hand == burn_hand(*view),
{
    BurnHand {
        wurm: card_in_hand(view, "RAV-SIEGE-WURM").is_some(),
        scatter: card_in_hand(view, "RAV-SCATTER-THE-SEEDS").is_some(),
        brownscale: card_in_hand(view, "RAV-GOLGARI-BROWNSCALE").is_some(),
        helix: card_in_hand(view, "RAV-LIGHTNING-HELIX").is_some(),
        char: card_in_hand(view, "RAV-CHAR").is_some(),
    }
}

/// The colour of land to play.
fn land_color(view: &GameView, hand: &BurnHand) -> (color: Option<Color>)
    ensures
        color == burn_land_color(*view, *hand),
{
    if (hand.wurm || hand.scatter || hand.brownscale) && lands_producing(view, Color::Green) < 2 {
        Some(Color::Green)
    } else if hand.helix && lands_producing(view, Color::White) == 0 {
        Some(Color::White)
    } else if (hand.helix || hand.char) && lands_producing(view, Color::Red) == 0 {
        Some(Color::Red)
    } else {
        None
    }
}

/// The colour of mana to make.
fn mana_color(view: &GameView, hand: &BurnHand) -> (color: Option<Color>)
    ensures
        color == burn_mana_color(*view, *hand),
{
    if (hand.wurm || hand.scatter || hand.brownscale) && view.mana[Color::Green.index()] < 2 {
        Some(Color::Green)
    } else if hand.helix && view.mana[Color::White.index()] == 0 {
        Some(Color::White)
    } else if (hand.helix || hand.char) && view.mana[Color::Red.index()] == 0 {
        Some(Color::Red)
    } else {
        None
    }
}

/// The policy's move in its own main phase with priority and an empty stack.
fn main_move(view: &GameView) -> (action: PolicyAction)
    ensures
        action@ == convoke_burn_main(*view),
{
    let hand = read_hand(view);
    let land_wanted = land_color(view, &hand);
    let mana_wanted = mana_color(view, &hand);
    let total = view.mana_total;
    if view.lands_played == 0 {
        if let Some(land) = select_hand_land(view, land_wanted) {
            return PolicyAction::PlayLand { card: land };
        }
    }
    if let Some(card) = card_in_hand(view, "RAV-SIEGE-WURM") {
        if let Some(convoke) = legal_green_convoke(view, 2, 5) {
            return PolicyAction::Cast(CastRequest { card, targets: Vec::new(), convoke });
        }
    }
    if let Some(card) = card_in_hand(view, "RAV-SCATTER-THE-SEEDS") {
        if let Some(convoke) = legal_green_convoke(view, 2, 3) {
            return PolicyAction::Cast(CastRequest { card, targets: Vec::new(), convoke });
        }
    }
    if let Some(card) = card_in_hand(view, "RAV-GOLGARI-BROWNSCALE") {
        if view.mana[Color::Green.index()] >= 2 && total >= 3 {
            return PolicyAction::Cast(CastRequest { card, targets: Vec::new(), convoke: Vec::new() });
        }
    }
    if let Some(card) = card_in_hand(view, "RAV-LIGHTNING-HELIX") {
        if view.mana[Color::White.index()] >= 1 && view.mana[Color::Red.index()] >= 1 && total >= 2 {
            let targets = vec![damage_target(view)];
            assert(targets@ =~= seq![burn_target(*view)]);
            return PolicyAction::Cast(CastRequest { card, targets, convoke: Vec::new() });
        }
    }
    if let Some(card) = card_in_hand(view, "RAV-CHAR") {
        if view.own_life > 2 && view.mana[Color::Red.index()] >= 1 && total >= 3 {
            let targets = vec![damage_target(view)];
            assert(targets@ =~= seq![burn_target(*view)]);
            return PolicyAction::Cast(CastRequest { card, targets, convoke: Vec::new() });
        }
    }
    if hand.wurm || hand.scatter || hand.brownscale || hand.helix || hand.char {
        if let Some(i) = select_battlefield_land(view, mana_wanted) {
            proof {
                crate::policies::moves::lemma_ready_land_choice_has_colors(*view, mana_wanted);
            }
            let land = &view.own_battlefield[i];
            let color = choose_tap_color(mana_wanted, land);
            return PolicyAction::ActivateManaAbility { land: land.id, color };
        }
    }
    PolicyAction::PassPriority
}

} // verus!
