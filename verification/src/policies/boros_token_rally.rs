//! A Boros-forward token policy for the executable public RAV slice.
//!
//! Green cards are a visible development splash: they make a creature board
//! for convoke and for Rally, while the red-white decisions use Rally and
//! Helix. Every choice is deterministic, so a rejected proposal is a
//! reproducible policy or engine finding.

use vstd::prelude::*;
use crate::CodePolicy;
use crate::planner::board::{Color, ObjectId, PlayerId, Step, Target};
use crate::policies::moves::{all_attackers, attackers, blocks, burn_target, card_in_hand, choose_tap_color, damage_target, defensive_assignments, first_card_id, first_id, green_convoke, hand_card, hand_land_choice, lands_making, lands_producing, legal_green_convoke, ready_land_choice, select_battlefield_land, select_hand_land, tap_color};
use crate::policies::select::{CardFilter};
use crate::policies::view::{ActionView, CastRequest, GameView, PolicyAction, pool_amount};

verus! {

/// The cards in hand the policy plans around.
pub struct RallyHand {
    pub scatter: bool,
    pub rally: bool,
    pub brownscale: bool,
    pub helix: bool,
}

/// Which of the policy's cards are in hand.
pub open spec fn rally_hand(view: GameView) -> RallyHand {
    RallyHand {
        scatter: hand_card(view, "RAV-SCATTER-THE-SEEDS") is Some,
        rally: hand_card(view, "RAV-RALLY-THE-RIGHTEOUS") is Some,
        brownscale: hand_card(view, "RAV-GOLGARI-BROWNSCALE") is Some,
        helix: hand_card(view, "RAV-LIGHTNING-HELIX") is Some,
    }
}

/// The creature Rally targets: a tapped green creature of the seat's first,
/// else any green creature of its.
pub open spec fn rally_target(view: GameView) -> Option<ObjectId> {
    match first_id(view.own_battlefield@, CardFilter::TappedGreenCreature) {
        Some(id) => Some(id),
        None => first_id(view.own_battlefield@, CardFilter::GreenCreature),
    }
}

/// The creature Rally targets.
pub fn green_creature_target(view: &GameView) -> (target: Option<ObjectId>)
    ensures
        target == rally_target(*view),
{
    let tapped = first_card_id(&view.own_battlefield, CardFilter::TappedGreenCreature);
    if tapped.is_some() {
        return tapped;
    }
    first_card_id(&view.own_battlefield, CardFilter::GreenCreature)
}

/// The colour of land to play.
pub open spec fn rally_land_color(view: GameView, hand: RallyHand) -> Option<Color> {
    if (hand.scatter || hand.brownscale) && lands_making(view, Color::Green) < 2 {
        Some(Color::Green)
    } else if (hand.rally || hand.helix) && lands_making(view, Color::White) == 0 {
        Some(Color::White)
    } else if (hand.rally || hand.helix) && lands_making(view, Color::Red) == 0 {
        Some(Color::Red)
    } else {
        None
    }
}

/// The colour of mana to make.
pub open spec fn rally_mana_color(view: GameView, hand: RallyHand) -> Option<Color> {
    if (hand.scatter || hand.brownscale) && pool_amount(view, Color::Green) < 2 {
        Some(Color::Green)
    } else if hand.rally && rally_target(view) is Some && pool_amount(view, Color::White) == 0 {
        Some(Color::White)
    } else if hand.rally && rally_target(view) is Some && pool_amount(view, Color::Red) == 0 {
        Some(Color::Red)
    } else if hand.helix && pool_amount(view, Color::White) == 0 {
        Some(Color::White)
    } else if (hand.rally || hand.helix) && pool_amount(view, Color::Red) == 0 {
        Some(Color::Red)
    } else {
        None
    }
}

/// The policy's move in its own main phase with priority and an empty stack.
pub open spec fn token_rally_main(view: GameView) -> ActionView {
    let hand = rally_hand(view);
    let land_color = rally_land_color(view, hand);
    let mana_color = rally_mana_color(view, hand);
    let total = view.mana_total;
    if view.lands_played == 0 && hand_land_choice(view, land_color) is Some {
        ActionView::PlayLand { card: hand_land_choice(view, land_color)->0 }
    } else if hand.scatter && green_convoke(view, 2, 3) is Some {
        ActionView::Cast {
            card: hand_card(view, "RAV-SCATTER-THE-SEEDS")->0,
            targets: Seq::empty(),
            convoke: green_convoke(view, 2, 3)->0,
        }
    } else if hand.rally && pool_amount(view, Color::White) >= 1 && pool_amount(view, Color::Red) >= 1
        && total >= 3 && rally_target(view) is Some {
        ActionView::Cast {
            card: hand_card(view, "RAV-RALLY-THE-RIGHTEOUS")->0,
            targets: seq![Target::Permanent(rally_target(view)->0)],
            convoke: Seq::empty(),
        }
    } else if hand.brownscale && pool_amount(view, Color::Green) >= 2 && total >= 3 {
        ActionView::Cast {
            card: hand_card(view, "RAV-GOLGARI-BROWNSCALE")->0,
            targets: Seq::empty(),
            convoke: Seq::empty(),
        }
    } else if hand.helix && pool_amount(view, Color::White) >= 1 && pool_amount(view, Color::Red) >= 1
        && total >= 2 {
        ActionView::Cast {
            card: hand_card(view, "RAV-LIGHTNING-HELIX")->0,
            targets: seq![burn_target(view)],
            convoke: Seq::empty(),
        }
    } else if (hand.scatter || hand.rally || hand.brownscale || hand.helix) && ready_land_choice(
        view,
        mana_color,
    ) is Some {
        let land = view.own_battlefield@[ready_land_choice(view, mana_color)->0];
        ActionView::ActivateManaAbility { land: land.id, color: tap_color(mana_color, land) }
    } else {
        ActionView::PassPriority
    }
}

/// The Boros token-rally policy's move for `player` given `view`.
pub open spec fn boros_token_rally_move(player: PlayerId, view: GameView) -> ActionView {
    if view.player != player || view.decision_player != player {
        ActionView::PassPriority
    } else if view.step == Step::DeclareAttackers && view.active_player == player && !view.attackers_declared {
        ActionView::DeclareAttackers { attackers: all_attackers(view) }
    } else if view.step == Step::DeclareBlockers && view.active_player != player && !view.blockers_declared {
        ActionView::DeclareBlockers { assignments: blocks(view) }
    } else if !(view.step == Step::PrecombatMain || view.step == Step::PostcombatMain) {
        ActionView::PassPriority
    } else if view.active_player != player || view.priority != player || view.stack_depth != 0 {
        ActionView::PassPriority
    } else {
        token_rally_main(view)
    }
}

/// A Boros-forward token policy for the executable public RAV slice.
#[derive(Clone, Copy, Debug, PartialEq, Eq, Structural)]
pub struct BorosTokenRallyPolicy {
    player: PlayerId,
}

impl BorosTokenRallyPolicy {
    /// The seat this policy plays.
    pub closed spec fn seat(self) -> PlayerId {
        self.player
    }

    pub fn new(player: PlayerId) -> (policy: BorosTokenRallyPolicy)
        ensures
            policy.seat() == player,
    {
        BorosTokenRallyPolicy { player }
    }
}

impl CodePolicy for BorosTokenRallyPolicy {
    /// The policy's identifier.
    fn id(&self) -> (id: &'static str)
        ensures
            id@ == "rav.boros-token-rally.v1"@,
    {
        "rav.boros-token-rally.v1"
    }

    /// The move this policy proposes given `view`.
    fn propose_move(&mut self, view: &GameView) -> (action: PolicyAction)
        ensures
            action@ == boros_token_rally_move(old(self).seat(), *view),
            *final(self) == *old(self),
    {
        let player = self.player;
        if view.player != player || view.decision_player != player {
            return PolicyAction::PassPriority;
        }
        if view.step == Step::DeclareAttackers && view.active_player == player && !view.attackers_declared {
            return PolicyAction::DeclareAttackers { attackers: attackers(view) };
        }
        if view.step == Step::DeclareBlockers && view.active_player != player && !view.blockers_declared {
            return PolicyAction::DeclareBlockers { assignments: defensive_assignments(view) };
        }
        if !(view.step == Step::PrecombatMain || view.step == Step::PostcombatMain) {
            return PolicyAction::PassPriority;
        }
        if view.active_player != player || view.priority != player || view.stack_depth != 0 {
            return PolicyAction::PassPriority;
        }
        main_move(view)
    }
}

/// Which of the policy's cards are in hand.
fn read_hand(view: &GameView) -> (hand: RallyHand)
    ensures
        hand == rally_hand(*view),
{
    RallyHand {
        scatter: card_in_hand(view, "RAV-SCATTER-THE-SEEDS").is_some(),
        rally: card_in_hand(view, "RAV-RALLY-THE-RIGHTEOUS").is_some(),
        brownscale: card_in_hand(view, "RAV-GOLGARI-BROWNSCALE").is_some(),
        helix: card_in_hand(view, "RAV-LIGHTNING-HELIX").is_some(),
    }
}

/// The colour of land to play.
fn land_color(view: &GameView, hand: &RallyHand) -> (color: Option<Color>)
    ensures
        color == rally_land_color(*view, *hand),
{
    if (hand.scatter || hand.brownscale) && lands_producing(view, Color::Green) < 2 {
        Some(Color::Green)
    } else if (hand.rally || hand.helix) && lands_producing(view, Color::White) == 0 {
        Some(Color::White)
    } else if (hand.rally || hand.helix) && lands_producing(view, Color::Red) == 0 {
        Some(Color::Red)
    } else {
        None
    }
}

/// The colour of mana to make.
fn mana_color(view: &GameView, hand: &RallyHand) -> (color: Option<Color>)
    ensures
        color == rally_mana_color(*view, *hand),
{
    let target = green_creature_target(view);
    if (hand.scatter || hand.brownscale) && view.mana[Color::Green.index()] < 2 {
        Some(Color::Green)
    } else if hand.rally && target.is_some() && view.mana[Color::White.index()] == 0 {
        Some(Color::White)
    } else if hand.rally && target.is_some() && view.mana[Color::Red.index()] == 0 {
        Some(Color::Red)
    } else if hand.helix && view.mana[Color::White.index()] == 0 {
        Some(Color::White)
    } else if (hand.rally || hand.helix) && view.mana[Color::Red.index()] == 0 {
        Some(Color::Red)
    } else {
        None
    }
}

/// The policy's move in its own main phase with priority and an empty stack.
fn main_move(view: &GameView) -> (action: PolicyAction)
    ensures
        action@ == token_rally_main(*view),
{
    let hand = read_hand(view);
    let land_wanted = land_color(view, &hand);
    let mana_wanted = mana_color(view, &hand);
    let total = view.mana_total;
    if view.lands_played == 0 {
        if let Some(land) = select_hand_land(view, land_wanted) {
            return PolicyAction::PlayLand { card: land };
        }
    }
    if let Some(card) = card_in_hand(view, "RAV-SCATTER-THE-SEEDS") {
        if let Some(convoke) = legal_green_convoke(view, 2, 3) {
            return PolicyAction::Cast(CastRequest { card, targets: Vec::new(), convoke });
        }
    }
    if let Some(card) = card_in_hand(view, "RAV-RALLY-THE-RIGHTEOUS") {
        if view.mana[Color::White.index()] >= 1 && view.mana[Color::Red.index()] >= 1 && total >= 3 {
            if let Some(target) = green_creature_target(view) {
                let targets = vec![Target::Permanent(target)];
                assert(targets@ =~= seq![Target::Permanent(target)]);
                return PolicyAction::Cast(CastRequest { card, targets, convoke: Vec::new() });
            }
        }
    }
    if let Some(card) = card_in_hand(view, "RAV-GOLGARI-BROWNSCALE") {
        if view.mana[Color::Green.index()] >= 2 && total >= 3 {
            return PolicyAction::Cast(CastRequest { card, targets: Vec::new(), convoke: Vec::new() });
        }
    }
    if let Some(card) = card_in_hand(view, "RAV-LIGHTNING-HELIX") {
        if view.mana[Color::White.index()] >= 1 && view.mana[Color::Red.index()] >= 1 && total >= 2 {
            let targets = vec![damage_target(view)];
            assert(targets@ =~= seq![burn_target(*view)]);
            return PolicyAction::Cast(CastRequest { card, targets, convoke: Vec::new() });
        }
    }
    if hand.scatter || hand.rally || hand.brownscale || hand.helix {
        if let Some(i) = select_battlefield_land(view, mana_wanted) {
            proof {
                crate::policies::moves::lemma_ready_land_choice_has_colors(*view, mana_wanted);
            }
            let land = &view.own_battlefield[i];
            let color = choose_tap_color(mana_wanted, land);
            return PolicyAction::ActivateManaAbility { land: land.id, color };
        }
    }
    PolicyAction::PassPriority
}

} // verus!
