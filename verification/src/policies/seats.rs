//! When the reference policies act at all.

use vstd::prelude::*;
use crate::catalog_gauntlet::{CatalogPolicyProfile, catalog_move};
use crate::golgari_attrition::golgari_attrition_move;
use crate::planner::board::PlayerId;
use crate::policies::boros_char_control::boros_char_control_move;
use crate::policies::boros_convoke_burn::boros_convoke_burn_move;
use crate::policies::boros_radiance_assault::boros_radiance_assault_move;
use crate::policies::boros_tempo::boros_tempo_move;
use crate::policies::boros_token_rally::boros_token_rally_move;
use crate::policies::dimir_transmute_attrition::dimir_transmute_attrition_move;
use crate::policies::dimir_transmute_convoke::dimir_transmute_convoke_move;
use crate::policies::golgari_dredge_grind::golgari_dredge_grind_move;
use crate::policies::golgari_wurm_press::golgari_wurm_press_move;
use crate::planner::board::Target;
use crate::policies::moves::{burn_target, first_opponent};
use crate::policies::view::{ActionView, GameView};

verus! {

/// Every reference policy passes priority when the view is another seat's,
/// or when the engine is waiting on another seat: a policy never acts for a
/// seat it does not play, nor out of turn.
pub proof fn policies_only_act_for_the_deciding_seat(player: PlayerId, profile: CatalogPolicyProfile, view: GameView)
    requires
        view.player != player || view.decision_player != player,
    ensures
        catalog_move(player, profile, view) is PassPriority,
        boros_char_control_move(player, view) is PassPriority,
        boros_convoke_burn_move(player, view) is PassPriority,
        boros_radiance_assault_move(player, view) is PassPriority,
        boros_tempo_move(player, view) is PassPriority,
        boros_token_rally_move(player, view) is PassPriority,
        dimir_transmute_attrition_move(player, view) is PassPriority,
        dimir_transmute_convoke_move(player, view) is PassPriority,
        golgari_attrition_move(player, view) is PassPriority,
        golgari_dredge_grind_move(player, view) is PassPriority,
        golgari_wurm_press_move(player, view) is PassPriority,
{
}

/// Outside the main phases and the two combat declaration steps, with no
/// decision or optional trigger pending, every reference policy passes
/// priority.
pub proof fn policies_pass_outside_their_steps(player: PlayerId, profile: CatalogPolicyProfile, view: GameView)
    requires
        view.pending_decision is None,
        view.optional_triggered_ability_choice is None,
        !(view.step == crate::planner::board::Step::PrecombatMain
            || view.step == crate::planner::board::Step::PostcombatMain
            || view.step == crate::planner::board::Step::DeclareAttackers
            || view.step == crate::planner::board::Step::DeclareBlockers),
    ensures
        catalog_move(player, profile, view) is PassPriority,
        boros_char_control_move(player, view) is PassPriority,
        boros_convoke_burn_move(player, view) is PassPriority,
        boros_radiance_assault_move(player, view) is PassPriority,
        boros_tempo_move(player, view) is PassPriority,
        boros_token_rally_move(player, view) is PassPriority,
        dimir_transmute_attrition_move(player, view) is PassPriority,
        dimir_transmute_convoke_move(player, view) is PassPriority,
        golgari_attrition_move(player, view) is PassPriority,
        golgari_dredge_grind_move(player, view) is PassPriority,
        golgari_wurm_press_move(player, view) is PassPriority,
{
}

/// Whether `seat` is one of the opponents the view lists.
pub open spec fn is_opponent(view: GameView, seat: PlayerId) -> bool {
    exists|j: int| 0 <= j < view.opponent_life@.len() && view.opponent_life@[j].0 == seat
}

/// Every player a cast targets is an opponent the view lists, never `player`.
pub open spec fn casts_at_opponents(action: ActionView, player: PlayerId, view: GameView) -> bool {
    match action {
        ActionView::Cast { targets, .. } => forall|k: int|
            0 <= k < targets.len() ==> match #[trigger] targets[k] {
                Target::Player(seat) => seat != player && is_opponent(view, seat),
                _ => true,
            },
        _ => true,
    }
}

/// The first listed opponent is an opponent, and burn aimed at a player
/// goes at that opponent.
pub proof fn lemma_first_opponent_listed(view: GameView)
    requires
        view.opponent_life@.len() > 0,
    ensures
        is_opponent(view, first_opponent(view)),
        burn_target(view) matches Target::Player(seat) ==> seat == first_opponent(view),
{
    assert(view.opponent_life@[0].0 == first_opponent(view));
}

/// No reference policy aims a spell at its own seat: in a view that lists
/// its opponents, every player a proposed cast targets is one of them.
pub proof fn policies_aim_spells_at_opponents(player: PlayerId, profile: CatalogPolicyProfile, view: GameView)
    requires
        view.opponent_life@.len() > 0,
        forall|j: int| 0 <= j < view.opponent_life@.len() ==> (#[trigger] view.opponent_life@[j]).0 != player,
    ensures
        casts_at_opponents(catalog_move(player, profile, view), player, view),
        casts_at_opponents(boros_char_control_move(player, view), player, view),
        casts_at_opponents(boros_convoke_burn_move(player, view), player, view),
        casts_at_opponents(boros_radiance_assault_move(player, view), player, view),
        casts_at_opponents(boros_tempo_move(player, view), player, view),
        casts_at_opponents(boros_token_rally_move(player, view), player, view),
        casts_at_opponents(dimir_transmute_attrition_move(player, view), player, view),
        casts_at_opponents(dimir_transmute_convoke_move(player, view), player, view),
        casts_at_opponents(golgari_attrition_move(player, view), player, view),
        casts_at_opponents(golgari_dredge_grind_move(player, view), player, view),
        casts_at_opponents(golgari_wurm_press_move(player, view), player, view),
{
    lemma_first_opponent_listed(view);
}

} // verus!
