//! A blue-led transmute policy with a green convoke development package and
//! `Lightning Helix` as the searched mana-value-two payoff.

use vstd::prelude::*;
use crate::CodePolicy;
use crate::planner::board::{Color, ObjectId, PlayerId, Step};
use crate::policies::moves::{all_attackers, attackers, burn_target, card_in_hand, choose_tap_color, damage_target, first_card_id, first_id, green_convoke, hand_card, hand_land_choice, lands_making, lands_producing, legal_green_convoke, ready_land_choice, select_battlefield_land, select_hand_land, tap_color};
use crate::policies::select::{CardFilter, passes_filter};
use crate::policies::view::{ActionView, CardView, CastRequest, DecisionSelection, GameView, SelectionView, PolicyAction, TransmuteSearch, first_where, is_named, lemma_first_where_at, lemma_first_where_none, pool_amount};

verus! {

/// The cards in hand the policy plans around.
pub struct TransmuteHand {
    pub muddle: bool,
    pub scatter: bool,
    pub brownscale: bool,
    pub helix: bool,
}

/// Which of the policy's cards are in hand.
pub open spec fn transmute_hand(view: GameView) -> TransmuteHand {
    TransmuteHand {
        muddle: hand_card(view, "RAV-MUDDLE-THE-MIXTURE") is Some,
        scatter: hand_card(view, "RAV-SCATTER-THE-SEEDS") is Some,
        brownscale: hand_card(view, "RAV-GOLGARI-BROWNSCALE") is Some,
        helix: hand_card(view, "RAV-LIGHTNING-HELIX") is Some,
    }
}

/// Whether `hand` holds a `Muddle the Mixture` with id `card`.
pub open spec fn muddle_with_id(hand: Seq<CardView>, card: ObjectId) -> bool {
    exists|k: int|
        0 <= k < hand.len() && #[trigger] hand[k].id == card && is_named("RAV-MUDDLE-THE-MIXTURE"@)(hand[k])
}

/// Whether a transmute search starts from a `Muddle the Mixture` in `hand`.
pub open spec fn from_muddle_in(hand: Seq<CardView>) -> spec_fn(TransmuteSearch) -> bool {
    |search: TransmuteSearch| muddle_with_id(hand, search.card)
}

/// Transmute the first `Muddle the Mixture` in hand when two blue and a third
/// mana float and its search can find a Helix.
pub open spec fn helix_transmute(view: GameView) -> Option<ObjectId> {
    if pool_amount(view, Color::Blue) < 2 || view.mana_total < 3 {
        None
    } else {
        match first_where(view.transmute_searches@, from_muddle_in(view.hand@)) {
            Some(i) => {
                let search = view.transmute_searches@[i];
                if first_id(search.candidates@, CardFilter::Named("RAV-LIGHTNING-HELIX")) is Some {
                    Some(search.card)
                } else {
                    None
                }
            },
            None => None,
        }
    }
}

/// The colour of land to play.
pub open spec fn transmute_land_color(view: GameView, hand: TransmuteHand) -> Option<Color> {
    if hand.muddle && lands_making(view, Color::Blue) < 2 {
        Some(Color::Blue)
    } else if (hand.scatter || hand.brownscale) && lands_making(view, Color::Green) < 2 {
        Some(Color::Green)
    } else if hand.helix && lands_making(view, Color::White) == 0 {
        Some(Color::White)
    } else if hand.helix && lands_making(view, Color::Red) == 0 {
        Some(Color::Red)
    } else {
        None
    }
}

/// The colour of mana to make.
pub open spec fn transmute_mana_color(view: GameView, hand: TransmuteHand) -> Option<Color> {
    if hand.muddle && pool_amount(view, Color::Blue) < 2 {
        Some(Color::Blue)
    } else if (hand.scatter || hand.brownscale) && pool_amount(view, Color::Green) < 2 {
        Some(Color::Green)
    } else if hand.helix && pool_amount(view, Color::White) == 0 {
        Some(Color::White)
    } else if hand.helix && pool_amount(view, Color::Red) == 0 {
        Some(Color::Red)
    } else {
        None
    }
}

/// The policy's move in its own main phase with priority and an empty stack.
pub open spec fn transmute_convoke_main(view: GameView) -> ActionView {
    let hand = transmute_hand(view);
    let land_color = transmute_land_color(view, hand);
    let mana_color = transmute_mana_color(view, hand);
    let total = view.mana_total;
    if view.lands_played == 0 && hand_land_choice(view, land_color) is Some {
        ActionView::PlayLand { card: hand_land_choice(view, land_color)->0 }
    } else if helix_transmute(view) is Some {
        ActionView::Transmute { card: helix_transmute(view)->0 }
    } else if hand.scatter && green_convoke(view, 2, 3) is Some {
        ActionView::Cast {
            card: hand_card(view, "RAV-SCATTER-THE-SEEDS")->0,
            targets: Seq::empty(),
            convoke: green_convoke(view, 2, 3)->0,
        }
    } else if hand.brownscale && pool_amount(view, Color::Green) >= 2 && total >= 3 {
        ActionView::Cast {
            card: hand_card(view, "RAV-GOLGARI-BROWNSCALE")->0,
            targets: Seq::empty(),
            convoke: Seq::empty(),
        }
    } else if hand.helix && pool_amount(view, Color::White) >= 1 && pool_amount(view, Color::Red) >= 1
        && total >= 2 {
        ActionView::Cast {
            card: hand_card(view, "RAV-LIGHTNING-HELIX")->0,
            targets: seq![burn_target(view)],
            convoke: Seq::empty(),
        }
    } else if (hand.muddle || hand.scatter || hand.brownscale || hand.helix) && ready_land_choice(
        view,
        mana_color,
    ) is Some {
        let land = view.own_battlefield@[ready_land_choice(view, mana_color)->0];
        ActionView::ActivateManaAbility { land: land.id, color: tap_color(mana_color, land) }
    } else {
        ActionView::PassPriority
    }
}

/// A pending decision is answered with the Helix among its candidates, or
/// with nothing.
pub open spec fn helix_selection(candidates: Seq<CardView>) -> Seq<ObjectId> {
    match first_id(candidates, CardFilter::Named("RAV-LIGHTNING-HELIX")) {
        Some(id) => seq![id],
        None => Seq::empty(),
    }
}

/// The Dimir transmute-convoke policy's move for `player` given `view`.
pub open spec fn dimir_transmute_convoke_move(player: PlayerId, view: GameView) -> ActionView {
    if view.player != player || view.decision_player != player {
        ActionView::PassPriority
    } else if view.pending_decision is Some {
        let decision = view.pending_decision->0;
        ActionView::SubmitDecision {
            decision: decision.id,
            selection: SelectionView::Objects(helix_selection(decision.candidates@)),
        }
    } else if view.step == Step::DeclareAttackers && view.active_player == player && !view.attackers_declared {
        ActionView::DeclareAttackers { attackers: all_attackers(view) }
    } else if view.step == Step::DeclareBlockers && view.active_player != player && !view.blockers_declared {
        ActionView::DeclareBlockers { assignments: Seq::empty() }
    } else if !(view.step == Step::PrecombatMain || view.step == Step::PostcombatMain) {
        ActionView::PassPriority
    } else if view.active_player != player || view.priority != player || view.stack_depth != 0 {
        ActionView::PassPriority
    } else {
        transmute_convoke_main(view)
    }
}

/// A blue-led transmute policy with an explicit green convoke development
/// package and Helix as the searched mana-value-two payoff.
#[derive(Clone, Copy, Debug, PartialEq, Eq, Structural)]
pub struct DimirTransmuteConvokePolicy {
    player: PlayerId,
}

impl DimirTransmuteConvokePolicy {
    /// The seat this policy plays.
    pub closed spec fn seat(self) -> PlayerId {
        self.player
    }

    pub fn new(player: PlayerId) -> (policy: DimirTransmuteConvokePolicy)
        ensures
            policy.seat() == player,
    {
        DimirTransmuteConvokePolicy { player }
    }
}

impl CodePolicy for DimirTransmuteConvokePolicy {
    /// The policy's identifier.
    fn id(&self) -> (id: &'static str)
        ensures
            id@ == "rav.dimir-transmute-convoke.v1"@,
    {
        "rav.dimir-transmute-convoke.v1"
    }

    /// The move this policy proposes given `view`.
    fn propose_move(&mut self, view: &GameView) -> (action: PolicyAction)
        ensures
            action@ == dimir_transmute_convoke_move(old(self).seat(), *view),
            *final(self) == *old(self),
    {
        let player = self.player;
        if view.player != player || view.decision_player != player {
            return PolicyAction::PassPriority;
        }
        if let Some(decision) = &view.pending_decision {
            let selected = match first_card_id(&decision.candidates, CardFilter::Named("RAV-LIGHTNING-HELIX")) {
                Some(id) => vec![id],
                None => Vec::new(),
            };
            assert(selected@ =~= helix_selection(decision.candidates@));
            return PolicyAction::SubmitDecision { decision: decision.id, selection: DecisionSelection::Objects(selected) };
        }
        if view.step == Step::DeclareAttackers && view.active_player == player && !view.attackers_declared {
            return PolicyAction::DeclareAttackers { attackers: attackers(view) };
        }
        if view.step == Step::DeclareBlockers && view.active_player != player && !view.blockers_declared {
            return PolicyAction::DeclareBlockers { assignments: Vec::new() };
        }
        if !(view.step == Step::PrecombatMain || view.step == Step::PostcombatMain) {
            return PolicyAction::PassPriority;
        }
        if view.active_player != player || view.priority != player || view.stack_depth != 0 {
            return PolicyAction::PassPriority;
        }
        main_move(view)
    }
}

/// Whether `hand` holds a `Muddle the Mixture` with id `card`.
fn muddle_in_hand(hand: &Vec<CardView>, card: ObjectId) -> (found: bool)
    ensures
        found == muddle_with_id(hand@, card),
{
    let mut k: usize = 0;
    while k < hand.len()
        invariant
            k <= hand@.len(),
            forall|q: int|
                0 <= q < k ==> !(#[trigger] hand@[q].id == card && is_named("RAV-MUDDLE-THE-MIXTURE"@)(
                    hand@[q],
                )),
        decreases hand@.len() - k,
    {
        if hand[k].id == card && passes_filter(CardFilter::Named("RAV-MUDDLE-THE-MIXTURE"), &hand[k]) {
            return true;
        }
        k = k + 1;
    }
    false
}

/// The transmute to start for a Helix, if any.
fn transmute_for_helix(view: &GameView) -> (card: Option<ObjectId>)
    ensures
        card == helix_transmute(*view),
{
    if view.mana[Color::Blue.index()] < 2 || view.mana_total < 3 {
        return None;
    }
    let mut i: usize = 0;
    while i < view.transmute_searches.len()
        invariant
            i <= view.transmute_searches@.len(),
            pool_amount(*view, Color::Blue) >= 2,
            view.mana_total >= 3,
            forall|q: int| 0 <= q < i ==> !from_muddle_in(view.hand@)(#[trigger] view.transmute_searches@[q]),
        decreases view.transmute_searches@.len() - i,
    {
        let card = view.transmute_searches[i].card;
        let hit = muddle_in_hand(&view.hand, card);
        if hit {
            proof {
                assert(from_muddle_in(view.hand@)(view.transmute_searches@[i as int]));
                lemma_first_where_at(view.transmute_searches@, from_muddle_in(view.hand@), i as int);
            }
            let found = first_card_id(&view.transmute_searches[i].candidates, CardFilter::Named("RAV-LIGHTNING-HELIX"));
            if found.is_some() {
                return Some(card);
            }
            return None;
        }
        i = i + 1;
    }
    proof {
        lemma_first_where_none(view.transmute_searches@, from_muddle_in(view.hand@));
    }
    None
}

/// Which of the policy's cards are in hand.
fn read_hand(view: &GameView) -> (hand: TransmuteHand)
    ensures
        hand == transmute_hand(*view),
{
    TransmuteHand {
        muddle: card_in_hand(view, "RAV-MUDDLE-THE-MIXTURE").is_some(),
        scatter: card_in_hand(view, "RAV-SCATTER-THE-SEEDS").is_some(),
        brownscale: card_in_hand(view, "RAV-GOLGARI-BROWNSCALE").is_some(),
        helix: card_in_hand(view, "RAV-LIGHTNING-HELIX").is_some(),
    }
}

/// The colour of land to play.
fn land_color(view: &GameView, hand: &TransmuteHand) -> (color: Option<Color>)
    ensures
        color == transmute_land_color(*view, *hand),
{
    if hand.muddle && lands_producing(view, Color::Blue) < 2 {
        Some(Color::Blue)
    } else if (hand.scatter || hand.brownscale) && lands_producing(view, Color::Green) < 2 {
        Some(Color::Green)
    } else if hand.helix && lands_producing(view, Color::White) == 0 {
        Some(Color::White)
    } else if hand.helix && lands_producing(view, Color::Red) == 0 {
        Some(Color::Red)
    } else {
        None
    }
}

/// The colour of mana to make.
fn mana_color(view: &GameView, hand: &TransmuteHand) -> (color: Option<Color>)
    ensures
        color == transmute_mana_color(*view, *hand),
{
    if hand.muddle && view.mana[Color::Blue.index()] < 2 {
        Some(Color::Blue)
    } else if (hand.scatter || hand.brownscale) && view.mana[Color::Green.index()] < 2 {
        Some(Color::Green)
    } else if hand.helix && view.mana[Color::White.index()] == 0 {
        Some(Color::White)
    } else if hand.helix && view.mana[Color::Red.index()] == 0 {
        Some(Color::Red)
    } else {
        None
    }
}

/// The policy's move in its own main phase with priority and an empty stack.
fn main_move(view: &GameView) -> (action: PolicyAction)
    ensures
        action@ == transmute_convoke_main(*view),
{
    let hand = read_hand(view);
    let land_wanted = land_color(view, &hand);
    let mana_wanted = mana_color(view, &hand);
    let total = view.mana_total;
    if view.lands_played == 0 {
        if let Some(land) = select_hand_land(view, land_wanted) {
            return PolicyAction::PlayLand { card: land };
        }
    }
    if let Some(card) = transmute_for_helix(view) {
        return PolicyAction::Transmute { card };
    }
    if let Some(card) = card_in_hand(view, "RAV-SCATTER-THE-SEEDS") {
        if let Some(convoke) = legal_green_convoke(view, 2, 3) {
            return PolicyAction::Cast(CastRequest { card, targets: Vec::new(), convoke });
        }
    }
    if let Some(card) = card_in_hand(view, "RAV-GOLGARI-BROWNSCALE") {
        if view.mana[Color::Green.index()] >= 2 && total >= 3 {
            return PolicyAction::Cast(CastRequest { card, targets: Vec::new(), convoke: Vec::new() });
        }
    }
    if let Some(card) = card_in_hand(view, "RAV-LIGHTNING-HELIX") {
        if view.mana[Color::White.index()] >= 1 && view.mana[Color::Red.index()] >= 1 && total >= 2 {
            let targets = vec![damage_target(view)];
            assert(targets@ =~= seq![burn_target(*view)]);
            return PolicyAction::Cast(CastRequest { card, targets, convoke: Vec::new() });
        }
    }
    if hand.muddle || hand.scatter || hand.brownscale || hand.helix {
        if let Some(i) = select_battlefield_land(view, mana_wanted) {
            proof {
                crate::policies::moves::lemma_ready_land_choice_has_colors(*view, mana_wanted);
            }
            let land = &view.own_battlefield[i];
            let color = choose_tap_color(mana_wanted, land);
            return PolicyAction::ActivateManaAbility { land: land.id, color };
        }
    }
    PolicyAction::PassPriority
}

} // verus!
