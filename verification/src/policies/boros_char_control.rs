//! A conservative Boros burn-control policy for the public Char deck.
//!
//! It develops red mana first, uses `Char` as its main four-damage
//! interaction, keeps itself alive at two life or less, and holds `Lightning
//! Helix` for a lethal line or a follow-up. It still submits the empty combat
//! declarations so whole-deck probes exercise the combat transitions.

use vstd::prelude::*;
use crate::CodePolicy;
use crate::planner::board::{Color, PlayerId, Step, Target};
use crate::policies::boros_tempo::{lemma_ready_land_has_colors, tempo_land};
use crate::policies::moves::{
    all_attackers, attackers, burn_target, card_in_hand, choose_tap_color, damage_target, first_opponent,
    hand_card, hand_land_choice, opponent_seat, select_hand_land, tap_color,
};
use crate::policies::select::{CardFilter, find_card};
use crate::policies::view::{ActionView, CastRequest, GameView, PolicyAction, pool_amount};

verus! {

/// The first opponent's life, or the largest life when the view lists none.
pub open spec fn first_opponent_life(view: GameView) -> i64 {
    if view.opponent_life@.len() > 0 {
        view.opponent_life@[0].1
    } else {
        i64::MAX
    }
}

/// The colour the policy wants, for a land to play and for mana to make: red
/// for a safe `Char`, then white and red for `Lightning Helix`.
pub open spec fn control_color(view: GameView, has_char: bool, has_helix: bool) -> Option<Color> {
    if has_char && view.own_life > 2 && pool_amount(view, Color::Red) == 0 {
        Some(Color::Red)
    } else if has_helix && pool_amount(view, Color::White) == 0 {
        Some(Color::White)
    } else if has_helix && pool_amount(view, Color::Red) == 0 {
        Some(Color::Red)
    } else {
        None
    }
}

/// Whether the pool pays for `Lightning Helix`.
pub open spec fn helix_paid(view: GameView) -> bool {
    pool_amount(view, Color::White) >= 1 && pool_amount(view, Color::Red) >= 1 && view.mana_total >= 2
}

/// The policy's move in a main phase with priority and an empty stack.
pub open spec fn char_control_main(player: PlayerId, view: GameView) -> ActionView {
    let char = hand_card(view, "RAV-CHAR");
    let helix = hand_card(view, "RAV-LIGHTNING-HELIX");
    let wanted = control_color(view, char is Some, helix is Some);
    if view.active_player == player && view.lands_played == 0 && hand_land_choice(view, wanted) is Some {
        ActionView::PlayLand { card: hand_land_choice(view, wanted)->0 }
    } else if helix is Some && first_opponent_life(view) <= 3 && helix_paid(view) {
        ActionView::Cast {
            card: helix->0,
            targets: seq![Target::Player(first_opponent(view))],
            convoke: Seq::empty(),
        }
    } else if char is Some && view.own_life > 2 && pool_amount(view, Color::Red) >= 1 && view.mana_total >= 3 {
        ActionView::Cast { card: char->0, targets: seq![burn_target(view)], convoke: Seq::empty() }
    } else if helix is Some && helix_paid(view) {
        ActionView::Cast { card: helix->0, targets: seq![burn_target(view)], convoke: Seq::empty() }
    } else if tempo_land(view, wanted) is Some {
        let land = view.own_battlefield@[tempo_land(view, wanted)->0];
        ActionView::ActivateManaAbility { land: land.id, color: tap_color(wanted, land) }
    } else {
        ActionView::PassPriority
    }
}

/// The Boros Char-control policy's move for `player` given `view`.
pub open spec fn boros_char_control_move(player: PlayerId, view: GameView) -> ActionView {
    if view.player != player || view.decision_player != player {
        ActionView::PassPriority
    } else if view.step == Step::DeclareAttackers && view.active_player == player && !view.attackers_declared {
        ActionView::DeclareAttackers { attackers: all_attackers(view) }
    } else if view.step == Step::DeclareBlockers && view.active_player != player && !view.blockers_declared {
        ActionView::DeclareBlockers { assignments: Seq::empty() }
    } else if !(view.step == Step::PrecombatMain || view.step == Step::PostcombatMain) {
        ActionView::PassPriority
    } else if view.priority != player || view.stack_depth != 0 {
        ActionView::PassPriority
    } else {
        char_control_main(player, view)
    }
}

/// A conservative Boros burn-control policy for the public Char deck.
#[derive(Clone, Copy, Debug, PartialEq, Eq, Structural)]
pub struct BorosCharControlPolicy {
    player: PlayerId,
}

impl BorosCharControlPolicy {
    /// The seat this policy plays.
    pub closed spec fn seat(self) -> PlayerId {
        self.player
    }

    pub fn new(player: PlayerId) -> (policy: BorosCharControlPolicy)
        ensures
            policy.seat() == player,
    {
        BorosCharControlPolicy { player }
    }
}

impl CodePolicy for BorosCharControlPolicy {
    /// The policy's identifier.
    fn id(&self) -> (id: &'static str)
        ensures
            id@ == "rav.boros-char-control.v1"@,
    {
        "rav.boros-char-control.v1"
    }

    /// The move this policy proposes given `view`.
    fn propose_move(&mut self, view: &GameView) -> (action: PolicyAction)
        ensures
            action@ == boros_char_control_move(old(self).seat(), *view),
            *final(self) == *old(self),
    {
        let player = self.player;
        if view.player != player || view.decision_player != player {
            return PolicyAction::PassPriority;
        }
        if view.step == Step::DeclareAttackers && view.active_player == player && !view.attackers_declared {
            return PolicyAction::DeclareAttackers { attackers: attackers(view) };
        }
        if view.step == Step::DeclareBlockers && view.active_player != player && !view.blockers_declared {
            return PolicyAction::DeclareBlockers { assignments: Vec::new() };
        }
        if !(view.step == Step::PrecombatMain || view.step == Step::PostcombatMain) {
            return PolicyAction::PassPriority;
        }
        if view.priority != player || view.stack_depth != 0 {
            return PolicyAction::PassPriority;
        }
        main_move(player, view)
    }
}

/// A one-target cast with no convoke.
fn cast_at(card: crate::planner::board::ObjectId, target: Target) -> (action: PolicyAction)
    ensures
        action@ == (ActionView::Cast { card, targets: seq![target], convoke: Seq::empty() }),
{
    let targets = vec![target];
    assert(targets@ =~= seq![target]);
    PolicyAction::Cast(CastRequest { card, targets, convoke: Vec::new() })
}

/// The policy's move in a main phase with priority and an empty stack.
fn main_move(player: PlayerId, view: &GameView) -> (action: PolicyAction)
    ensures
        action@ == char_control_main(player, *view),
{
    let char = card_in_hand(view, "RAV-CHAR");
    let helix = card_in_hand(view, "RAV-LIGHTNING-HELIX");
    let red = view.mana[Color::Red.index()];
    let white = view.mana[Color::White.index()];
    let wanted = if char.is_some() && view.own_life > 2 && red == 0 {
        Some(Color::Red)
    } else if helix.is_some() && white == 0 {
        Some(Color::White)
    } else if helix.is_some() && red == 0 {
        Some(Color::Red)
    } else {
        None
    };
    let opponent_life = if view.opponent_life.len() > 0 {
        view.opponent_life[0].1
    } else {
        i64::MAX
    };
    let helix_ready = white >= 1 && red >= 1 && view.mana_total >= 2;
    if view.active_player == player && view.lands_played == 0 {
        if let Some(land) = select_hand_land(view, wanted) {
            return PolicyAction::PlayLand { card: land };
        }
    }
    if let Some(card) = helix {
        if opponent_life <= 3 && helix_ready {
            return cast_at(card, Target::Player(opponent_seat(view)));
        }
    }
    if let Some(card) = char {
        if view.own_life > 2 && red >= 1 && view.mana_total >= 3 {
            return cast_at(card, damage_target(view));
        }
    }
    if let Some(card) = helix {
        if helix_ready {
            return cast_at(card, damage_target(view));
        }
    }
    let land = match wanted {
        Some(color) => find_card(&view.own_battlefield, CardFilter::ReadyLandOf(color)),
        None => find_card(&view.own_battlefield, CardFilter::ReadyLand),
    };
    match land {
        Some(i) => {
            proof {
                lemma_ready_land_has_colors(view.own_battlefield@, wanted);
            }
            let color = choose_tap_color(wanted, &view.own_battlefield[i]);
            PolicyAction::ActivateManaAbility { land: view.own_battlefield[i].id, color }
        },
        None => PolicyAction::PassPriority,
    }
}

} // verus!
