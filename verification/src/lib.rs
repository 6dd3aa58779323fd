//! Verified planning, reference policies and measurement logic for the Magic
//! code-policy benchmark.

use vstd::prelude::*;

pub mod archetype;
pub mod catalog_gauntlet;
pub mod cli;
pub mod deck_match;
pub mod development_match;
pub mod golgari_attrition;
pub mod ladder;
pub mod matchup;
pub mod planner;
pub mod policies;
pub mod roster;
pub mod sweep;
pub mod text;
pub mod versions;

verus! {

/// The submission interface of a code policy: it names itself and proposes a
/// move for each view of the game it is shown.
pub trait CodePolicy {
    /// The policy's identifier.
    fn id(&self) -> &'static str;

    /// The move the policy proposes given `view`.
    fn propose_move(&mut self, view: &policies::view::GameView) -> policies::view::PolicyAction;

    /// Chooses a draw replacement when the engine asks for one. Policies that
    /// use no replacement effects take the normal draw.
    fn propose_draw_replacement(&mut self, view: &policies::view::GameView) -> (action: policies::view::PolicyAction)
        default_ensures
            action@ == (policies::view::ActionView::Draw { dredge: None }),
    {
        policies::view::PolicyAction::Draw { dredge: None }
    }

    /// Completes a controller-private library choice opened in the middle of
    /// a spell's resolution. The default selects no cards, so a policy cannot
    /// pay life for hidden cards it was not written to evaluate.
    fn propose_private_library_choice(&mut self, view: &policies::view::GameView) -> (action:
        policies::view::PolicyAction)
        requires
            view.private_library_choice is Some,
        default_ensures
            action@ == (policies::view::ActionView::ChoosePrivateLibraryCards {
                decision: view.private_library_choice->0.decision,
                spell: view.private_library_choice->0.spell,
                selected: Seq::empty(),
            }),
    {
        let choice = view.private_library_choice.unwrap();
        policies::view::PolicyAction::ChoosePrivateLibraryCards {
            decision: choice.decision,
            spell: choice.spell,
            selected: Vec::new(),
        }
    }

    /// Completes a private choice, opened by a targeted activated ability, of
    /// a card in an opponent's library to exile. The default exiles the first
    /// candidate, or nothing when the library is empty.
    fn propose_private_opponent_library_choice(&mut self, view: &policies::view::GameView) -> (action:
        policies::view::PolicyAction)
        requires
            view.private_opponent_library_choice is Some,
        default_ensures
            action@ == (policies::view::ActionView::ChoosePrivateOpponentLibraryCardToExile {
                source: view.private_opponent_library_choice->0.source,
                ability: view.private_opponent_library_choice->0.ability,
                selected: if view.private_opponent_library_choice->0.cards@.len() > 0 {
                    Some(view.private_opponent_library_choice->0.cards@[0].id)
                } else {
                    None
                },
            }),
    {
        let choice = view.private_opponent_library_choice.as_ref().unwrap();
        let selected = if choice.cards.len() > 0 {
            Some(choice.cards[0].id)
        } else {
            None
        };
        policies::view::PolicyAction::ChoosePrivateOpponentLibraryCardToExile {
            source: choice.source,
            ability: choice.ability,
            selected,
        }
    }

    /// Completes a controller-private typed library search. The default finds
    /// the first legal candidate, or explicitly nothing when there is none.
    fn propose_library_search_choice(&mut self, view: &policies::view::GameView) -> (action:
        policies::view::PolicyAction)
        requires
            view.library_search_choice is Some,
        default_ensures
            action@ == (policies::view::ActionView::ChooseLibrarySearchCard {
                source: view.library_search_choice->0.source,
                selected: if view.library_search_choice->0.cards@.len() > 0 {
                    Some(view.library_search_choice->0.cards@[0].id)
                } else {
                    None
                },
            }),
    {
        let choice = view.library_search_choice.as_ref().unwrap();
        let selected = if choice.cards.len() > 0 {
            Some(choice.cards[0].id)
        } else {
            None
        };
        policies::view::PolicyAction::ChooseLibrarySearchCard { source: choice.source, selected }
    }
}

} // verus!
