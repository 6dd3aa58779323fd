//! A deterministic Golgari midrange policy for the public RAV attrition
//! fixture.
//!
//! It develops green mana for its creature and convoke plan while keeping
//! black for `Last Gasp`, removes an opposing Brownscale when it can, trades
//! in combat, and eventually convokes a Siege Wurm. Every proposal uses only
//! what the seat's view exposes.

use vstd::prelude::*;
use crate::CodePolicy;
use crate::planner::board::{Color, ObjectId, PlayerId, Step, Target};
use crate::policies::moves::{
    all_attackers, attackers, card_in_hand, first_card_id, first_id, green_convoke, hand_card, hand_land_choice,
    legal_green_convoke, select_hand_land,
};
use crate::policies::select::{CardFilter, card_ids, count_cards, passes};
use crate::policies::view::{
    ActionView, CastRequest, CombatBlock, GameView, PolicyAction, count_where, first_where, ids_where, pool_amount,
};
use crate::text::text_eq;

verus! {

/// The order blockers are spent in: a Brownscale first (it comes back), a
/// Siege Wurm next, anything else last.
pub open spec fn blocker_priority_view(definition: Option<Seq<char>>) -> u8 {
    match definition {
        Some(id) => if id == "RAV-GOLGARI-BROWNSCALE"@ {
            0
        } else if id == "RAV-SIEGE-WURM"@ {
            1
        } else {
            2
        },
        None => 2,
    }
}

/// The rank of a blocker with this definition id; lower is spent first.
pub fn blocker_priority(definition: Option<&str>) -> (rank: u8)
    ensures
        rank == blocker_priority_view(
            match definition {
                Some(id) => Some(id@),
                None => None,
            },
        ),
{
    match definition {
        Some(id) => if text_eq(id, "RAV-GOLGARI-BROWNSCALE") {
            0
        } else if text_eq(id, "RAV-SIEGE-WURM") {
            1
        } else {
            2
        },
        None => 2,
    }
}

/// The creature `Last Gasp` aims at: an opposing Brownscale first, else any
/// opposing creature.
pub open spec fn gasp_target(view: GameView) -> Option<ObjectId> {
    match first_id(view.opponent_battlefield@, CardFilter::Named("RAV-GOLGARI-BROWNSCALE")) {
        Some(id) => Some(id),
        None => first_id(view.opponent_battlefield@, CardFilter::Creature),
    }
}

/// The creature `Last Gasp` aims at.
pub fn last_gasp_target(view: &GameView) -> (target: Option<ObjectId>)
    ensures
        target == gasp_target(*view),
{
    let brownscale = first_card_id(&view.opponent_battlefield, CardFilter::Named("RAV-GOLGARI-BROWNSCALE"));
    if brownscale.is_some() {
        return brownscale;
    }
    first_card_id(&view.opponent_battlefield, CardFilter::Creature)
}

/// Whether a green spell of the deck is in hand.
pub open spec fn needs_green(view: GameView) -> bool {
    first_where(view.hand@, passes(CardFilter::GreenSpell)) is Some
}

/// The colour of land to play: black for a removal spell with a target when
/// no black source is out, green until two green sources, black for a held
/// removal spell, green otherwise.
pub open spec fn golgari_land_color(view: GameView) -> Color {
    let has_black = first_where(view.own_battlefield@, passes(CardFilter::MakesColor(Color::Black))) is Some;
    let green_sources = count_where(view.own_battlefield@, passes(CardFilter::MakesColor(Color::Green)));
    let gasp = hand_card(view, "RAV-LAST-GASP") is Some;
    if gasp && gasp_target(view) is Some && !has_black {
        Color::Black
    } else if needs_green(view) && green_sources < 2 {
        Color::Green
    } else if gasp && !has_black {
        Color::Black
    } else {
        Color::Green
    }
}

/// The land to tap and the colour to tap it for: black while a removal spell
/// waits on it, green while a green spell is in hand.
pub open spec fn golgari_mana(view: GameView) -> Option<(ObjectId, Color)> {
    let gasp = hand_card(view, "RAV-LAST-GASP") is Some;
    let black = pool_amount(view, Color::Black) >= 1;
    if (gasp && gasp_target(view) is Some && !black) || (!needs_green(view) && gasp && !black) {
        match first_id(view.own_battlefield@, CardFilter::UntappedMakesColor(Color::Black)) {
            Some(id) => Some((id, Color::Black)),
            None => None,
        }
    } else if needs_green(view) {
        match first_id(view.own_battlefield@, CardFilter::UntappedMakesColor(Color::Green)) {
            Some(id) => Some((id, Color::Green)),
            None => None,
        }
    } else {
        None
    }
}

/// Untapped creatures in the order they are spent as blockers: by rank, and
/// in board order within a rank.
pub open spec fn ranked_blockers(view: GameView) -> Seq<ObjectId> {
    ids_where(view.own_battlefield@, passes(CardFilter::RankedBlocker(0))) + ids_where(
        view.own_battlefield@,
        passes(CardFilter::RankedBlocker(1)),
    ) + ids_where(view.own_battlefield@, passes(CardFilter::RankedBlocker(2)))
}

/// Each attacker in turn is blocked by the next blocker in rank order.
pub open spec fn ranked_blocks(view: GameView) -> Seq<CombatBlock> {
    let blockers = ranked_blockers(view);
    let attacking = view.combat_attackers@;
    let n = if attacking.len() < blockers.len() {
        attacking.len()
    } else {
        blockers.len()
    };
    Seq::new(n, |k: int| CombatBlock { attacker: attacking[k].id, blocker: blockers[k] })
}

/// The policy's move in its own main phase with an empty stack.
pub open spec fn golgari_attrition_main(view: GameView) -> ActionView {
    let total = view.mana_total;
    let land = hand_land_choice(view, Some(golgari_land_color(view)));
    if view.lands_played == 0 && land is Some {
        ActionView::PlayLand { card: land->0 }
    } else if hand_card(view, "RAV-SIEGE-WURM") is Some && green_convoke(view, 2, 5) is Some {
        ActionView::Cast {
            card: hand_card(view, "RAV-SIEGE-WURM")->0,
            targets: Seq::empty(),
            convoke: green_convoke(view, 2, 5)->0,
        }
    } else if hand_card(view, "RAV-SCATTER-THE-SEEDS") is Some && green_convoke(view, 2, 3) is Some {
        ActionView::Cast {
            card: hand_card(view, "RAV-SCATTER-THE-SEEDS")->0,
            targets: Seq::empty(),
            convoke: green_convoke(view, 2, 3)->0,
        }
    } else if hand_card(view, "RAV-GOLGARI-BROWNSCALE") is Some && pool_amount(view, Color::Green) >= 2 && (
    if total >= 2 {
        total - 2
    } else {
        0
    }) >= 1 {
        ActionView::Cast {
            card: hand_card(view, "RAV-GOLGARI-BROWNSCALE")->0,
            targets: Seq::empty(),
            convoke: Seq::empty(),
        }
    } else {
        match golgari_mana(view) {
            Some((land, color)) => ActionView::ActivateManaAbility { land, color },
            None => ActionView::PassPriority,
        }
    }
}

/// The Golgari attrition policy's move for `player` given `view`.
pub open spec fn golgari_attrition_move(player: PlayerId, view: GameView) -> ActionView {
    let gasp = hand_card(view, "RAV-LAST-GASP");
    if view.player != player || view.decision_player != player {
        ActionView::PassPriority
    } else if view.step == Step::DeclareAttackers && view.active_player == player && !view.attackers_declared {
        ActionView::DeclareAttackers { attackers: all_attackers(view) }
    } else if view.step == Step::DeclareBlockers && view.active_player != player && !view.blockers_declared {
        ActionView::DeclareBlockers { assignments: ranked_blocks(view) }
    } else if !(view.step == Step::PrecombatMain || view.step == Step::PostcombatMain) {
        ActionView::PassPriority
    } else if view.priority != player {
        ActionView::PassPriority
    } else if gasp is Some && gasp_target(view) is Some && pool_amount(view, Color::Black) >= 1 {
        ActionView::Cast {
            card: gasp->0,
            targets: seq![Target::Permanent(gasp_target(view)->0)],
            convoke: Seq::empty(),
        }
    } else if view.active_player != player || view.stack_depth != 0 {
        ActionView::PassPriority
    } else {
        golgari_attrition_main(view)
    }
}

/// A deterministic Golgari midrange policy for the public RAV attrition
/// fixture.
#[derive(Clone, Copy, Debug, PartialEq, Eq, Structural)]
pub struct GolgariAttritionPolicy {
    player: PlayerId,
}

impl GolgariAttritionPolicy {
    /// The seat this policy plays.
    pub closed spec fn seat(self) -> PlayerId {
        self.player
    }

    pub fn new(player: PlayerId) -> (policy: GolgariAttritionPolicy)
        ensures
            policy.seat() == player,
    {
        GolgariAttritionPolicy { player }
    }
}

impl CodePolicy for GolgariAttritionPolicy {
    /// The policy's identifier.
    fn id(&self) -> (id: &'static str)
        ensures
            id@ == "rav.golgari-attrition.v1"@,
    {
        "rav.golgari-attrition.v1"
    }

    /// The move this policy proposes given `view`.
    fn propose_move(&mut self, view: &GameView) -> (action: PolicyAction)
        ensures
            action@ == golgari_attrition_move(old(self).seat(), *view),
            *final(self) == *old(self),
    {
        let player = self.player;
        if view.player != player || view.decision_player != player {
            return PolicyAction::PassPriority;
        }
        if view.step == Step::DeclareAttackers && view.active_player == player && !view.attackers_declared {
            return PolicyAction::DeclareAttackers { attackers: attackers(view) };
        }
        if view.step == Step::DeclareBlockers && view.active_player != player && !view.blockers_declared {
            return PolicyAction::DeclareBlockers { assignments: defensive_assignments(view) };
        }
        if !(view.step == Step::PrecombatMain || view.step == Step::PostcombatMain) {
            return PolicyAction::PassPriority;
        }
        if view.priority != player {
            return PolicyAction::PassPriority;
        }
        if let Some(gasp) = card_in_hand(view, "RAV-LAST-GASP") {
            if let Some(target) = last_gasp_target(view) {
                if view.mana[Color::Black.index()] >= 1 {
                    let targets = vec![Target::Permanent(target)];
                    assert(targets@ =~= seq![Target::Permanent(target)]);
                    return PolicyAction::Cast(CastRequest { card: gasp, targets, convoke: Vec::new() });
                }
            }
        }
        if view.active_player != player || view.stack_depth != 0 {
            return PolicyAction::PassPriority;
        }
        main_move(view)
    }
}

/// The colour of land to play.
fn land_color(view: &GameView) -> (color: Color)
    ensures
        color == golgari_land_color(*view),
{
    let has_black = crate::policies::select::find_card(&view.own_battlefield, CardFilter::MakesColor(Color::Black)).is_some();
    let green_sources = count_cards(&view.own_battlefield, CardFilter::MakesColor(Color::Green));
    let gasp = card_in_hand(view, "RAV-LAST-GASP").is_some();
    let green = crate::policies::select::find_card(&view.hand, CardFilter::GreenSpell).is_some();
    if gasp && last_gasp_target(view).is_some() && !has_black {
        Color::Black
    } else if green && green_sources < 2 {
        Color::Green
    } else if gasp && !has_black {
        Color::Black
    } else {
        Color::Green
    }
}

/// The land to tap and the colour to tap it for.
fn mana_to_activate(view: &GameView) -> (choice: Option<(ObjectId, Color)>)
    ensures
        choice == golgari_mana(*view),
{
    let gasp = card_in_hand(view, "RAV-LAST-GASP").is_some();
    let black = view.mana[Color::Black.index()] >= 1;
    let green = crate::policies::select::find_card(&view.hand, CardFilter::GreenSpell).is_some();
    if (gasp && last_gasp_target(view).is_some() && !black) || (!green && gasp && !black) {
        match first_card_id(&view.own_battlefield, CardFilter::UntappedMakesColor(Color::Black)) {
            Some(id) => Some((id, Color::Black)),
            None => None,
        }
    } else if green {
        match first_card_id(&view.own_battlefield, CardFilter::UntappedMakesColor(Color::Green)) {
            Some(id) => Some((id, Color::Green)),
            None => None,
        }
    } else {
        None
    }
}

/// Each attacker in turn is blocked by the next blocker in rank order.
fn defensive_assignments(view: &GameView) -> (assignments: Vec<CombatBlock>)
    ensures
        assignments@ == ranked_blocks(*view),
{
    let mut blockers = card_ids(&view.own_battlefield, CardFilter::RankedBlocker(0));
    let mut second = card_ids(&view.own_battlefield, CardFilter::RankedBlocker(1));
    let mut third = card_ids(&view.own_battlefield, CardFilter::RankedBlocker(2));
    blockers.append(&mut second);
    blockers.append(&mut third);
    let mut assignments: Vec<CombatBlock> = Vec::new();
    let mut k: usize = 0;
    while k < view.combat_attackers.len() && k < blockers.len()
        invariant
            k <= view.combat_attackers@.len(),
            k <= blockers@.len(),
            blockers@ == ranked_blockers(*view),
            assignments@ =~= Seq::new(
                k as nat,
                |q: int| CombatBlock { attacker: view.combat_attackers@[q].id, blocker: blockers@[q] },
            ),
        decreases view.combat_attackers@.len() - k,
    {
        assignments.push(CombatBlock { attacker: view.combat_attackers[k].id, blocker: blockers[k] });
        k = k + 1;
    }
    assignments
}

/// The policy's move in its own main phase with an empty stack.
fn main_move(view: &GameView) -> (action: PolicyAction)
    ensures
        action@ == golgari_attrition_main(*view),
{
    let total = view.mana_total;
    if view.lands_played == 0 {
        if let Some(land) = select_hand_land(view, Some(land_color(view))) {
            return PolicyAction::PlayLand { card: land };
        }
    }
    if let Some(card) = card_in_hand(view, "RAV-SIEGE-WURM") {
        if let Some(convoke) = legal_green_convoke(view, 2, 5) {
            return PolicyAction::Cast(CastRequest { card, targets: Vec::new(), convoke });
        }
    }
    if let Some(card) = card_in_hand(view, "RAV-SCATTER-THE-SEEDS") {
        if let Some(convoke) = legal_green_convoke(view, 2, 3) {
            return PolicyAction::Cast(CastRequest { card, targets: Vec::new(), convoke });
        }
    }
    if let Some(card) = card_in_hand(view, "RAV-GOLGARI-BROWNSCALE") {
        if view.mana[Color::Green.index()] >= 2 && total.saturating_sub(2) >= 1 {
            return PolicyAction::Cast(CastRequest { card, targets: Vec::new(), convoke: Vec::new() });
        }
    }
    if let Some((land, color)) = mana_to_activate(view) {
        return PolicyAction::ActivateManaAbility { land, color };
    }
    PolicyAction::PassPriority
}

} // verus!
