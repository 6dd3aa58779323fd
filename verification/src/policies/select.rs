//! Finding, listing and counting the cards of a view that pass a filter.

use vstd::prelude::*;
use crate::planner::board::{CardType, Color, ObjectId};
use crate::policies::view::{
    CardView, can_attack, count_where, first_where, ids_where, is_creature, is_green_creature, is_land,
    is_land_of, is_named, is_ready_land, is_ready_land_of, is_tapped_green_creature, is_untapped_creature,
    is_untapped_green_creature, lemma_first_where_at, lemma_first_where_none,
};
use crate::text::text_eq;

verus! {

/// A test a policy applies to cards.
#[derive(Clone, Copy, Debug)]
pub enum CardFilter {
    /// The card with this definition id.
    Named(&'static str),
    Land,
    LandOf(Color),
    /// An untapped land with an intrinsic mana ability.
    ReadyLand,
    /// An untapped land with an intrinsic mana ability making this colour.
    ReadyLandOf(Color),
    Creature,
    UntappedCreature,
    UntappedGreenCreature,
    GreenCreature,
    TappedGreenCreature,
    CanAttack,
    /// A card whose mana abilities make this colour.
    MakesColor(Color),
    /// An untapped card whose mana abilities make this colour.
    UntappedMakesColor(Color),
    /// An untapped creature spent as a blocker at this rank.
    RankedBlocker(u8),
    /// One of the green spells of the Golgari decks.
    GreenSpell,
    /// An untapped creature spent as a blocker at this rank of the Wurm
    /// press order.
    PressBlocker(u8),
    /// An untapped creature spent as a blocker at this rank of the dredge
    /// grind order.
    GrindBlocker(u8),
    /// A basic land.
    BasicLand,
    /// An untapped basic land.
    UntappedBasicLand,
}

/// The dredge grind spends unnamed blockers (tokens) first, then
/// Brownscales, then anything else.
pub open spec fn grind_rank_view(definition: Option<Seq<char>>) -> u8 {
    match definition {
        None => 0,
        Some(id) => if id == "RAV-GOLGARI-BROWNSCALE"@ {
            1
        } else {
            2
        },
    }
}

/// The dredge grind rank of a blocker with this definition id.
pub fn grind_rank(definition: Option<&str>) -> (rank: u8)
    ensures
        rank == grind_rank_view(
            match definition {
                Some(id) => Some(id@),
                None => None,
            },
        ),
{
    match definition {
        None => 0,
        Some(id) => if text_eq(id, "RAV-GOLGARI-BROWNSCALE") {
            1
        } else {
            2
        },
    }
}

/// The Wurm press spends unnamed blockers first, then Brownscales, then Siege
/// Wurms, then anything else.
pub open spec fn press_rank_view(definition: Option<Seq<char>>) -> u8 {
    match definition {
        None => 0,
        Some(id) => if id == "RAV-GOLGARI-BROWNSCALE"@ {
            1
        } else if id == "RAV-SIEGE-WURM"@ {
            2
        } else {
            3
        },
    }
}

/// The Wurm press rank of a blocker with this definition id.
pub fn press_rank(definition: Option<&str>) -> (rank: u8)
    ensures
        rank == press_rank_view(
            match definition {
                Some(id) => Some(id@),
                None => None,
            },
        ),
{
    match definition {
        None => 0,
        Some(id) => if text_eq(id, "RAV-GOLGARI-BROWNSCALE") {
            1
        } else if text_eq(id, "RAV-SIEGE-WURM") {
            2
        } else {
            3
        },
    }
}

/// A card's definition id as characters.
pub open spec fn definition_chars(card: CardView) -> Option<Seq<char>> {
    match card.definition {
        Some(id) => Some(id@),
        None => None,
    }
}

/// What a filter means.
pub open spec fn passes(filter: CardFilter) -> spec_fn(CardView) -> bool {
    match filter {
        CardFilter::Named(definition) => is_named(definition@),
        CardFilter::Land => is_land(),
        CardFilter::LandOf(color) => is_land_of(color),
        CardFilter::ReadyLand => is_ready_land(),
        CardFilter::ReadyLandOf(color) => is_ready_land_of(color),
        CardFilter::Creature => is_creature(),
        CardFilter::UntappedCreature => is_untapped_creature(),
        CardFilter::UntappedGreenCreature => is_untapped_green_creature(),
        CardFilter::GreenCreature => is_green_creature(),
        CardFilter::TappedGreenCreature => is_tapped_green_creature(),
        CardFilter::CanAttack => can_attack(),
        CardFilter::MakesColor(color) => |card: CardView| card.mana_colors@.contains(color),
        CardFilter::UntappedMakesColor(color) => |card: CardView| !card.tapped && card.mana_colors@.contains(color),
        CardFilter::RankedBlocker(rank) => |card: CardView|
            !card.tapped && card.card_types@.contains(CardType::Creature)
                && crate::golgari_attrition::blocker_priority_view(definition_chars(card)) == rank,
        CardFilter::PressBlocker(rank) => |card: CardView|
            !card.tapped && card.card_types@.contains(CardType::Creature) && press_rank_view(definition_chars(card))
                == rank,
        CardFilter::GrindBlocker(rank) => |card: CardView|
            !card.tapped && card.card_types@.contains(CardType::Creature) && grind_rank_view(definition_chars(card))
                == rank,
        CardFilter::BasicLand => |card: CardView| card.basic_land_type is Some,
        CardFilter::UntappedBasicLand => |card: CardView| !card.tapped && card.basic_land_type is Some,
        CardFilter::GreenSpell => |card: CardView|
            is_named("RAV-GOLGARI-BROWNSCALE"@)(card) || is_named("RAV-SCATTER-THE-SEEDS"@)(card) || is_named(
                "RAV-SIEGE-WURM"@,
            )(card),
    }
}

/// Whether a list of card types holds `kind`.
pub fn has_card_type(types: &Vec<CardType>, kind: CardType) -> (found: bool)
    ensures
        found == types@.contains(kind),
{
    let mut i: usize = 0;
    while i < types.len()
        invariant
            i <= types@.len(),
            forall|k: int| 0 <= k < i ==> types@[k] != kind,
        decreases types@.len() - i,
    {
        if types[i] == kind {
            assert(types@[i as int] == kind);
            return true;
        }
        i = i + 1;
    }
    false
}

/// Whether a list of colours holds `color`.
pub fn has_color(colors: &Vec<Color>, color: Color) -> (found: bool)
    ensures
        found == colors@.contains(color),
{
    let mut i: usize = 0;
    while i < colors.len()
        invariant
            i <= colors@.len(),
            forall|k: int| 0 <= k < i ==> colors@[k] != color,
        decreases colors@.len() - i,
    {
        if colors[i] == color {
            assert(colors@[i as int] == color);
            return true;
        }
        i = i + 1;
    }
    false
}

/// Whether `card` has definition id `definition`.
pub fn named(card: &CardView, definition: &str) -> (found: bool)
    ensures
        found == is_named(definition@)(*card),
{
    match card.definition {
        Some(id) => text_eq(id, definition),
        None => false,
    }
}

/// Whether `card` passes `filter`.
pub fn passes_filter(filter: CardFilter, card: &CardView) -> (ok: bool)
    ensures
        ok == passes(filter)(*card),
{
    match filter {
        CardFilter::Named(definition) => named(card, definition),
        CardFilter::Land => has_card_type(&card.card_types, CardType::Land),
        CardFilter::LandOf(color) => has_card_type(&card.card_types, CardType::Land) && has_color(
            &card.mana_colors,
            color,
        ),
        CardFilter::ReadyLand => !card.tapped && has_card_type(&card.card_types, CardType::Land)
            && card.mana_colors.len() > 0,
        CardFilter::ReadyLandOf(color) => !card.tapped && has_card_type(&card.card_types, CardType::Land)
            && card.mana_colors.len() > 0 && has_color(&card.mana_colors, color),
        CardFilter::Creature => has_card_type(&card.card_types, CardType::Creature),
        CardFilter::UntappedCreature => !card.tapped && has_card_type(&card.card_types, CardType::Creature),
        CardFilter::UntappedGreenCreature => !card.tapped && has_color(&card.colors, Color::Green)
            && has_card_type(&card.card_types, CardType::Creature),
        CardFilter::GreenCreature => has_color(&card.colors, Color::Green) && has_card_type(
            &card.card_types,
            CardType::Creature,
        ),
        CardFilter::TappedGreenCreature => card.tapped && has_color(&card.colors, Color::Green)
            && has_card_type(&card.card_types, CardType::Creature),
        CardFilter::CanAttack => card.can_attack,
        CardFilter::MakesColor(color) => has_color(&card.mana_colors, color),
        CardFilter::UntappedMakesColor(color) => !card.tapped && has_color(&card.mana_colors, color),
        CardFilter::RankedBlocker(rank) => !card.tapped && has_card_type(&card.card_types, CardType::Creature)
            && crate::golgari_attrition::blocker_priority(card.definition) == rank,
        CardFilter::PressBlocker(rank) => !card.tapped && has_card_type(&card.card_types, CardType::Creature)
            && press_rank(card.definition) == rank,
        CardFilter::GrindBlocker(rank) => !card.tapped && has_card_type(&card.card_types, CardType::Creature)
            && grind_rank(card.definition) == rank,
        CardFilter::BasicLand => card.basic_land_type.is_some(),
        CardFilter::UntappedBasicLand => !card.tapped && card.basic_land_type.is_some(),
        CardFilter::GreenSpell => named(card, "RAV-GOLGARI-BROWNSCALE") || named(card, "RAV-SCATTER-THE-SEEDS")
            || named(card, "RAV-SIEGE-WURM"),
    }
}

/// The position of the first card passing `filter`.
pub fn find_card(cards: &Vec<CardView>, filter: CardFilter) -> (found: Option<usize>)
    ensures
        match found {
            Some(i) => first_where(cards@, passes(filter)) == Some(i as int) && i < cards@.len(),
            None => first_where(cards@, passes(filter)) is None,
        },
{
    let mut i: usize = 0;
    while i < cards.len()
        invariant
            i <= cards@.len(),
            forall|k: int| 0 <= k < i ==> !passes(filter)(#[trigger] cards@[k]),
        decreases cards@.len() - i,
    {
        if passes_filter(filter, &cards[i]) {
            proof {
                lemma_first_where_at(cards@, passes(filter), i as int);
            }
            return Some(i);
        }
        i = i + 1;
    }
    proof {
        lemma_first_where_none(cards@, passes(filter));
    }
    None
}

/// The ids of the cards passing `filter`, in order.
pub fn card_ids(cards: &Vec<CardView>, filter: CardFilter) -> (ids: Vec<ObjectId>)
    ensures
        ids@ == ids_where(cards@, passes(filter)),
{
    let mut ids: Vec<ObjectId> = Vec::new();
    let mut i: usize = 0;
    while i < cards.len()
        invariant
            i <= cards@.len(),
            ids@ == ids_where(cards@.take(i as int), passes(filter)),
        decreases cards@.len() - i,
    {
        assert(cards@.take(i + 1).drop_last() =~= cards@.take(i as int));
        assert(cards@.take(i + 1).last() == cards@[i as int]);
        if passes_filter(filter, &cards[i]) {
            ids.push(cards[i].id);
        }
        i = i + 1;
    }
    assert(cards@.take(cards@.len() as int) =~= cards@);
    ids
}

/// How many cards pass `filter`.
pub fn count_cards(cards: &Vec<CardView>, filter: CardFilter) -> (count: usize)
    ensures
        count == count_where(cards@, passes(filter)),
{
    let mut count: usize = 0;
    let mut i: usize = 0;
    while i < cards.len()
        invariant
            i <= cards@.len(),
            count == count_where(cards@.take(i as int), passes(filter)),
            count <= i,
        decreases cards@.len() - i,
    {
        assert(cards@.take(i + 1).drop_last() =~= cards@.take(i as int));
        assert(cards@.take(i + 1).last() == cards@[i as int]);
        if passes_filter(filter, &cards[i]) {
            count = count + 1;
        }
        i = i + 1;
    }
    assert(cards@.take(cards@.len() as int) =~= cards@);
    count
}

} // verus!
