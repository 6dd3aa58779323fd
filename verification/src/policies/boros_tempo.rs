//! A deterministic Boros policy: play a land, make the mana its burn needs,
//! cast `Lightning Helix` before `Char`, and complete combat declarations.

use vstd::prelude::*;
use crate::CodePolicy;
use crate::planner::board::{Color, PlayerId, Step, Target};
use crate::policies::moves::{
    all_attackers, attackers, card_in_hand, first_opponent, hand_card, hand_land_choice, opponent_seat,
    select_hand_land,
};
use crate::policies::select::{CardFilter, find_card, passes};
use crate::policies::view::{ActionView, CastRequest, GameView, PolicyAction, first_where, pool_amount};

verus! {

/// The colour the Boros tempo policy wants next: white for a Helix, then red
/// for either burn spell.
pub open spec fn tempo_wanted(view: GameView) -> Option<Color> {
    let helix = hand_card(view, "RAV-LIGHTNING-HELIX");
    let char = hand_card(view, "RAV-CHAR");
    if helix is Some && pool_amount(view, Color::White) == 0 {
        Some(Color::White)
    } else if (helix is Some || char is Some) && pool_amount(view, Color::Red) == 0 {
        Some(Color::Red)
    } else {
        None
    }
}

/// The untapped land to tap: one making `wanted` when a colour is wanted,
/// else the first untapped land.
pub open spec fn tempo_land(view: GameView, wanted: Option<Color>) -> Option<int> {
    match wanted {
        Some(color) => first_where(view.own_battlefield@, passes(CardFilter::ReadyLandOf(color))),
        None => first_where(view.own_battlefield@, passes(CardFilter::ReadyLand)),
    }
}

/// The tempo policy's move in its own main phase with an empty stack.
pub open spec fn tempo_main(player: PlayerId, view: GameView) -> ActionView {
    let helix = hand_card(view, "RAV-LIGHTNING-HELIX");
    let char = hand_card(view, "RAV-CHAR");
    let opponent = first_opponent(view);
    let wanted = tempo_wanted(view);
    if view.active_player == player && view.lands_played == 0 && hand_land_choice(view, wanted) is Some {
        ActionView::PlayLand { card: hand_land_choice(view, wanted)->0 }
    } else if helix is Some && pool_amount(view, Color::White) >= 1 && pool_amount(view, Color::Red) >= 1 {
        ActionView::Cast { card: helix->0, targets: seq![Target::Player(opponent)], convoke: Seq::empty() }
    } else if char is Some && pool_amount(view, Color::Red) >= 1 && view.mana_total >= 3 {
        ActionView::Cast { card: char->0, targets: seq![Target::Player(opponent)], convoke: Seq::empty() }
    } else {
        match tempo_land(view, wanted) {
            Some(i) => ActionView::ActivateManaAbility {
                land: view.own_battlefield@[i].id,
                color: match wanted {
                    Some(color) => color,
                    None => view.own_battlefield@[i].mana_colors@[0],
                },
            },
            None => ActionView::PassPriority,
        }
    }
}

/// The Boros tempo policy's move for `player` given `view`.
pub open spec fn boros_tempo_move(player: PlayerId, view: GameView) -> ActionView {
    if view.player != player || view.decision_player != player {
        ActionView::PassPriority
    } else if view.step == Step::DeclareAttackers && view.active_player == player && !view.attackers_declared {
        ActionView::DeclareAttackers { attackers: all_attackers(view) }
    } else if view.step == Step::DeclareBlockers && view.active_player != player && !view.blockers_declared {
        ActionView::DeclareBlockers { assignments: Seq::empty() }
    } else if !(view.step == Step::PrecombatMain || view.step == Step::PostcombatMain) {
        ActionView::PassPriority
    } else if view.stack_depth != 0 || view.priority != player {
        ActionView::PassPriority
    } else {
        tempo_main(player, view)
    }
}

/// A deterministic Boros policy for the public RAV deck fixture. It plays a
/// land, activates intrinsic mana abilities, prioritizes `Lightning Helix`
/// over `Char`, and explicitly completes combat declarations.
#[derive(Clone, Copy, Debug, PartialEq, Eq, Structural)]
pub struct BorosTempoPolicy {
    player: PlayerId,
}

impl BorosTempoPolicy {
    /// The seat this policy plays.
    pub closed spec fn seat(self) -> PlayerId {
        self.player
    }

    pub fn new(player: PlayerId) -> (policy: BorosTempoPolicy)
        ensures
            policy.seat() == player,
    {
        BorosTempoPolicy { player }
    }
}

impl CodePolicy for BorosTempoPolicy {
    /// The policy's identifier.
    fn id(&self) -> (id: &'static str)
        ensures
            id@ == "rav.boros-tempo.v1"@,
    {
        "rav.boros-tempo.v1"
    }

    /// The move this policy proposes given `view`.
    fn propose_move(&mut self, view: &GameView) -> (action: PolicyAction)
        ensures
            action@ == boros_tempo_move(old(self).seat(), *view),
            *final(self) == *old(self),
    {
        let player = self.player;
        if view.player != player || view.decision_player != player {
            return PolicyAction::PassPriority;
        }
        if view.step == Step::DeclareAttackers && view.active_player == player && !view.attackers_declared {
            return PolicyAction::DeclareAttackers { attackers: attackers(view) };
        }
        if view.step == Step::DeclareBlockers && view.active_player != player && !view.blockers_declared {
            return PolicyAction::DeclareBlockers { assignments: Vec::new() };
        }
        if !(view.step == Step::PrecombatMain || view.step == Step::PostcombatMain) {
            return PolicyAction::PassPriority;
        }
        if view.stack_depth != 0 || view.priority != player {
            return PolicyAction::PassPriority;
        }
        main_move(player, view)
    }
}

/// The tempo policy's move in its own main phase with an empty stack.
fn main_move(player: PlayerId, view: &GameView) -> (action: PolicyAction)
    ensures
        action@ == tempo_main(player, *view),
{
    let opponent = opponent_seat(view);
    let helix = card_in_hand(view, "RAV-LIGHTNING-HELIX");
    let char = card_in_hand(view, "RAV-CHAR");
    let white = view.mana[Color::White.index()];
    let red = view.mana[Color::Red.index()];
    let wanted = if helix.is_some() && white == 0 {
        Some(Color::White)
    } else if (helix.is_some() || char.is_some()) && red == 0 {
        Some(Color::Red)
    } else {
        None
    };
    if view.active_player == player && view.lands_played == 0 {
        if let Some(land) = select_hand_land(view, wanted) {
            return PolicyAction::PlayLand { card: land };
        }
    }
    if let Some(card) = helix {
        if white >= 1 && red >= 1 {
            let targets = vec![Target::Player(opponent)];
            assert(targets@ =~= seq![Target::Player(opponent)]);
            return PolicyAction::Cast(CastRequest { card, targets, convoke: Vec::new() });
        }
    }
    if let Some(card) = char {
        if red >= 1 && view.mana_total >= 3 {
            let targets = vec![Target::Player(opponent)];
            assert(targets@ =~= seq![Target::Player(opponent)]);
            return PolicyAction::Cast(CastRequest { card, targets, convoke: Vec::new() });
        }
    }
    let land = match wanted {
        Some(color) => find_card(&view.own_battlefield, CardFilter::ReadyLandOf(color)),
        None => find_card(&view.own_battlefield, CardFilter::ReadyLand),
    };
    match land {
        Some(i) => {
            let color = match wanted {
                Some(color) => color,
                None => {
                    proof {
                        lemma_ready_land_has_colors(view.own_battlefield@, wanted);
                    }
                    view.own_battlefield[i].mana_colors[0]
                },
            };
            PolicyAction::ActivateManaAbility { land: view.own_battlefield[i].id, color }
        },
        None => PolicyAction::PassPriority,
    }
}

/// The land the strict selection picks has a mana colour to tap for.
pub proof fn lemma_ready_land_has_colors(cards: Seq<crate::policies::view::CardView>, wanted: Option<Color>)
    ensures
        (match wanted {
            Some(color) => first_where(cards, passes(CardFilter::ReadyLandOf(color))),
            None => first_where(cards, passes(CardFilter::ReadyLand)),
        }) matches Some(i) ==> 0 <= i < cards.len() && cards[i].mana_colors@.len() > 0,
{
    crate::policies::view::lemma_first_where_holds(cards, passes(CardFilter::ReadyLand));
    if let Some(color) = wanted {
        crate::policies::view::lemma_first_where_holds(cards, passes(CardFilter::ReadyLandOf(color)));
    }
}

} // verus!
