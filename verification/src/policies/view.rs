//! What a seat sees when it is asked for a move, and the moves it can make.
//!
//! The engine hands a policy a view of the game from its own seat; these
//! types hold, as plain values, everything the reference policies read of it.

use vstd::prelude::*;
use crate::planner::board::{CardType, Color, LandType, ObjectId, PlayerId, Step, Target};

verus! {

/// What the card catalog says of a card that the catalog policy reads.
#[derive(Clone, Copy, Debug)]
pub struct CatalogFacts {
    pub mana_value: u8,
    /// Coloured symbols of the cost by pool slot, in `[W, U, B, R, G, C]`
    /// order, each count saturating at `u8::MAX`.
    pub colored: [u8; 6],
    /// How many coloured symbols the cost has.
    pub colored_len: usize,
    pub generic: u8,
    /// Whether the card is an artifact, creature or enchantment with no
    /// hybrid symbols and no targets: one the catalog policy may cast blind.
    pub safe: bool,
}

/// A card as the seat sees it: in hand, on a battlefield, or attacking.
#[derive(Clone, Debug)]
pub struct CardView {
    pub id: ObjectId,
    /// The card's definition id, when the seat can see it.
    pub definition: Option<&'static str>,
    pub tapped: bool,
    pub can_attack: bool,
    pub card_types: Vec<CardType>,
    pub colors: Vec<Color>,
    /// The colours of mana the card's intrinsic mana abilities make.
    pub mana_colors: Vec<Color>,
    /// The basic land type, for a basic land.
    pub basic_land_type: Option<LandType>,
    /// The catalog's facts about the card, when the catalog lists it.
    pub catalog: Option<CatalogFacts>,
}

/// A transmute the seat may start: the card it would transmute and the
/// library cards the search could find.
#[derive(Clone, Debug)]
pub struct TransmuteSearch {
    pub card: ObjectId,
    pub candidates: Vec<CardView>,
}

/// The identity of a pending decision.
#[derive(Clone, Copy, Debug, PartialEq, Eq, Structural)]
pub struct DecisionId(pub u64);

/// A pending triggered ability the seat may order.
#[derive(Clone, Copy, Debug, PartialEq, Eq, Structural)]
pub struct TriggerId(pub u64);

/// A replacement effect the seat may apply.
#[derive(Clone, Copy, Debug, PartialEq, Eq, Structural)]
pub struct ReplacementId(pub u64);

/// What a pending decision asks the seat to do.
#[derive(Clone, Copy, Debug, PartialEq, Eq, Structural)]
pub enum DecisionKind {
    CommanderReturn,
    CommanderZoneReplacement,
    WarpWorldEntry,
    LibrarySearch,
    TriggeredEffectObject,
    ConditionalPrivateDiscard,
    TargetPlayerSacrificeCreatureThenControllerDrawsEqualToPower,
    TargetPlayerLibraryTopMayGraveyard,
    PublicGraveyardCreatureReturn,
    PublicGraveyardLandReturn,
    SourceLinkedExileCreatureReturn,
    PreserveControlledPermanents,
    RetargetActivatedAbility,
    PermanentEntryCopySource,
    PermanentEntryCopyAuraAttachment,
    LegendRule,
    CleanupDiscard,
    WarpWorldBottom,
    LibraryReorder,
    HandToLibraryBottomDraw,
    CombatDamageOrder,
    LibrarySearchAndCast,
    LibraryTopPartition,
    TargetPlayerLibraryTopReorder,
    SpellCopyTargets,
    ExiledSpellCopyCast,
    TriggeredAbilityTargets,
    TriggeredAbilityOrder,
    Replacement,
    CounterUnlessPaysMana,
    CounterUnlessDiscardsHand,
    TargetPlayerManaColor,
    NamedCardTargetLibraryTraversal,
}

/// A decision the seat must complete before anything else, with what it may
/// choose among.
#[derive(Clone, Debug)]
pub struct PendingDecision {
    pub id: DecisionId,
    pub kind: DecisionKind,
    pub candidates: Vec<CardView>,
    /// The fewest objects or targets the seat must choose.
    pub min_selections: u8,
    pub target_candidates: Vec<Target>,
    pub trigger_candidates: Vec<TriggerId>,
    pub replacement_candidates: Vec<ReplacementId>,
    pub color_candidates: Vec<Color>,
    pub card_name_candidates: Vec<&'static str>,
}

/// The seat's answer to a pending decision.
#[derive(Clone, Debug, PartialEq, Eq)]
pub enum DecisionSelection {
    Objects(Vec<ObjectId>),
    LibrarySearchAndCast { selected: Option<ObjectId>, targets: Vec<Target> },
    LibraryTopPartition { hand: ObjectId, top: Option<ObjectId>, bottom: Vec<ObjectId> },
    TargetPlayerLibraryTopReorder { top: Vec<ObjectId>, bottom: Vec<ObjectId> },
    Targets(Vec<Target>),
    /// Casting an exiled spell copy: the copy, its targets, mode and colour.
    ExiledSpellCopyCast { card: Option<ObjectId>, targets: Vec<Target>, mode: Option<usize>, color: Option<Color> },
    TriggerOrder(Vec<TriggerId>),
    Replacements(Vec<ReplacementId>),
    /// Whether to pay for a counter-unless-pays; a refusal taps nothing.
    CounterUnlessPaysMana { pay: bool },
    CounterUnlessDiscardsHand { discard: bool },
    Color(Color),
    CardName(&'static str),
}

/// The mathematical value of a [`DecisionSelection`].
pub enum SelectionView {
    Objects(Seq<ObjectId>),
    LibrarySearchAndCast { selected: Option<ObjectId>, targets: Seq<Target> },
    LibraryTopPartition { hand: ObjectId, top: Option<ObjectId>, bottom: Seq<ObjectId> },
    TargetPlayerLibraryTopReorder { top: Seq<ObjectId>, bottom: Seq<ObjectId> },
    Targets(Seq<Target>),
    ExiledSpellCopyCast { card: Option<ObjectId>, targets: Seq<Target>, mode: Option<usize>, color: Option<Color> },
    TriggerOrder(Seq<TriggerId>),
    Replacements(Seq<ReplacementId>),
    CounterUnlessPaysMana { pay: bool },
    CounterUnlessDiscardsHand { discard: bool },
    Color(Color),
    CardName(&'static str),
}

impl View for DecisionSelection {
    type V = SelectionView;

    open spec fn view(&self) -> SelectionView {
        match self {
            DecisionSelection::Objects(objects) => SelectionView::Objects(objects@),
            DecisionSelection::LibrarySearchAndCast { selected, targets } => SelectionView::LibrarySearchAndCast {
                selected: *selected,
                targets: targets@,
            },
            DecisionSelection::LibraryTopPartition { hand, top, bottom } => SelectionView::LibraryTopPartition {
                hand: *hand,
                top: *top,
                bottom: bottom@,
            },
            DecisionSelection::TargetPlayerLibraryTopReorder { top, bottom } =>
                SelectionView::TargetPlayerLibraryTopReorder { top: top@, bottom: bottom@ },
            DecisionSelection::Targets(targets) => SelectionView::Targets(targets@),
            DecisionSelection::ExiledSpellCopyCast { card, targets, mode, color } =>
                SelectionView::ExiledSpellCopyCast { card: *card, targets: targets@, mode: *mode, color: *color },
            DecisionSelection::TriggerOrder(order) => SelectionView::TriggerOrder(order@),
            DecisionSelection::Replacements(chosen) => SelectionView::Replacements(chosen@),
            DecisionSelection::CounterUnlessPaysMana { pay } => SelectionView::CounterUnlessPaysMana { pay: *pay },
            DecisionSelection::CounterUnlessDiscardsHand { discard } => SelectionView::CounterUnlessDiscardsHand {
                discard: *discard,
            },
            DecisionSelection::Color(color) => SelectionView::Color(*color),
            DecisionSelection::CardName(name) => SelectionView::CardName(*name),
        }
    }
}

/// A controller-private library choice opened while a spell resolves.
#[derive(Clone, Copy, Debug)]
pub struct PrivateLibraryChoice {
    pub decision: DecisionId,
    pub spell: ObjectId,
}

/// A private choice, opened by a targeted activated ability, of a card in an
/// opponent's library to exile.
#[derive(Clone, Debug)]
pub struct PrivateOpponentLibraryChoice {
    pub source: ObjectId,
    /// The ability's index on its source.
    pub ability: usize,
    pub cards: Vec<CardView>,
}

/// A controller-private typed library search suspended during a resolution.
#[derive(Clone, Debug)]
pub struct LibrarySearchChoice {
    pub source: ObjectId,
    pub cards: Vec<CardView>,
}

/// An optional triggered ability whose controller chooses whether to pay.
#[derive(Clone, Copy, Debug)]
pub struct OptionalTriggerChoice {
    pub decision: DecisionId,
    pub source: ObjectId,
    pub ability: usize,
}

/// A seat's view of the game when it is asked for a move.
#[derive(Clone, Debug)]
pub struct GameView {
    /// The seat this view belongs to.
    pub player: PlayerId,
    /// The seat the engine is waiting on.
    pub decision_player: PlayerId,
    /// The seat whose turn it is.
    pub active_player: PlayerId,
    /// The seat holding priority.
    pub priority: PlayerId,
    pub step: Step,
    pub attackers_declared: bool,
    pub blockers_declared: bool,
    pub stack_depth: usize,
    pub lands_played: u8,
    pub own_life: i64,
    pub hand: Vec<CardView>,
    pub own_battlefield: Vec<CardView>,
    pub opponent_battlefield: Vec<CardView>,
    /// The creatures attacking this combat.
    pub combat_attackers: Vec<CardView>,
    /// Each opponent's seat and life, in seat order.
    pub opponent_life: Vec<(PlayerId, i64)>,
    /// Floating mana by pool slot, in `[W, U, B, R, G, C]` order.
    pub mana: [u8; 6],
    /// The pool's total as the engine reports it.
    pub mana_total: u8,
    pub transmute_searches: Vec<TransmuteSearch>,
    pub pending_decision: Option<PendingDecision>,
    /// Whether the seat must choose how to replace a draw.
    pub draw_replacement_pending: bool,
    /// The graveyard cards the seat could dredge in place of that draw.
    pub dredge_candidates: Vec<CardView>,
    pub private_library_choice: Option<PrivateLibraryChoice>,
    pub private_opponent_library_choice: Option<PrivateOpponentLibraryChoice>,
    pub library_search_choice: Option<LibrarySearchChoice>,
    pub optional_triggered_ability_choice: Option<OptionalTriggerChoice>,
    /// The pool's exact total.
    pub mana_total_exact: u16,
}

/// How one convoking creature helps pay.
#[derive(Clone, Copy, Debug, PartialEq, Eq, Structural)]
pub enum ConvokeContribution {
    Color(Color),
    Generic,
}

/// One creature tapped to convoke.
#[derive(Clone, Copy, Debug, PartialEq, Eq, Structural)]
pub struct ConvokePayment {
    pub creature: ObjectId,
    pub contribution: ConvokeContribution,
}

/// One blocker assigned to one attacker.
#[derive(Clone, Copy, Debug, PartialEq, Eq, Structural)]
pub struct CombatBlock {
    pub attacker: ObjectId,
    pub blocker: ObjectId,
}

/// A spell cast: the card, its targets and the creatures convoking it.
#[derive(Clone, Debug, PartialEq, Eq)]
pub struct CastRequest {
    pub card: ObjectId,
    pub targets: Vec<Target>,
    pub convoke: Vec<ConvokePayment>,
}

/// The move a policy proposes.
#[derive(Clone, Debug, PartialEq, Eq)]
pub enum PolicyAction {
    PassPriority,
    PlayLand { card: ObjectId },
    DeclareAttackers { attackers: Vec<ObjectId> },
    DeclareBlockers { assignments: Vec<CombatBlock> },
    Cast(CastRequest),
    ActivateManaAbility { land: ObjectId, color: Color },
    Transmute { card: ObjectId },
    /// Completes a pending decision.
    SubmitDecision { decision: DecisionId, selection: DecisionSelection },
    /// Takes a pending draw, or dredges the named card in its place.
    Draw { dredge: Option<ObjectId> },
    /// Completes a private library choice with these cards.
    ChoosePrivateLibraryCards { decision: DecisionId, spell: ObjectId, selected: Vec<ObjectId> },
    /// Exiles this card, if any, from an opponent's library.
    ChoosePrivateOpponentLibraryCardToExile { source: ObjectId, ability: usize, selected: Option<ObjectId> },
    /// Finds this card, if any, in a library search.
    ChooseLibrarySearchCard { source: ObjectId, selected: Option<ObjectId> },
    /// Resolves an optional triggered ability, paying for it or not.
    ResolveOptionalTriggeredAbility {
        decision: DecisionId,
        source: ObjectId,
        ability: usize,
        pay: bool,
        target: Option<Target>,
    },
    /// Plays a land that offers a life payment as it enters.
    PlayLandWithEntryLifePayment { card: ObjectId, pay_life: bool },
}

/// The mathematical value of a [`PolicyAction`].
pub enum ActionView {
    PassPriority,
    PlayLand { card: ObjectId },
    DeclareAttackers { attackers: Seq<ObjectId> },
    DeclareBlockers { assignments: Seq<CombatBlock> },
    Cast { card: ObjectId, targets: Seq<Target>, convoke: Seq<ConvokePayment> },
    ActivateManaAbility { land: ObjectId, color: Color },
    Transmute { card: ObjectId },
    SubmitDecision { decision: DecisionId, selection: SelectionView },
    Draw { dredge: Option<ObjectId> },
    ChoosePrivateLibraryCards { decision: DecisionId, spell: ObjectId, selected: Seq<ObjectId> },
    ChoosePrivateOpponentLibraryCardToExile { source: ObjectId, ability: usize, selected: Option<ObjectId> },
    ChooseLibrarySearchCard { source: ObjectId, selected: Option<ObjectId> },
    ResolveOptionalTriggeredAbility {
        decision: DecisionId,
        source: ObjectId,
        ability: usize,
        pay: bool,
        target: Option<Target>,
    },
    PlayLandWithEntryLifePayment { card: ObjectId, pay_life: bool },
}

impl View for PolicyAction {
    type V = ActionView;

    open spec fn view(&self) -> ActionView {
        match self {
            PolicyAction::PassPriority => ActionView::PassPriority,
            PolicyAction::PlayLand { card } => ActionView::PlayLand { card: *card },
            PolicyAction::DeclareAttackers { attackers } => ActionView::DeclareAttackers {
                attackers: attackers@,
            },
            PolicyAction::DeclareBlockers { assignments } => ActionView::DeclareBlockers {
                assignments: assignments@,
            },
            PolicyAction::Cast(request) => ActionView::Cast {
                card: request.card,
                targets: request.targets@,
                convoke: request.convoke@,
            },
            PolicyAction::ActivateManaAbility { land, color } => ActionView::ActivateManaAbility {
                land: *land,
                color: *color,
            },
            PolicyAction::Transmute { card } => ActionView::Transmute { card: *card },
            PolicyAction::SubmitDecision { decision, selection } => ActionView::SubmitDecision {
                decision: *decision,
                selection: selection@,
            },
            PolicyAction::Draw { dredge } => ActionView::Draw { dredge: *dredge },
            PolicyAction::ChoosePrivateLibraryCards { decision, spell, selected } =>
                ActionView::ChoosePrivateLibraryCards { decision: *decision, spell: *spell, selected: selected@ },
            PolicyAction::ChoosePrivateOpponentLibraryCardToExile { source, ability, selected } =>
                ActionView::ChoosePrivateOpponentLibraryCardToExile {
                    source: *source,
                    ability: *ability,
                    selected: *selected,
                },
            PolicyAction::ChooseLibrarySearchCard { source, selected } => ActionView::ChooseLibrarySearchCard {
                source: *source,
                selected: *selected,
            },
            PolicyAction::ResolveOptionalTriggeredAbility { decision, source, ability, pay, target } =>
                ActionView::ResolveOptionalTriggeredAbility {
                    decision: *decision,
                    source: *source,
                    ability: *ability,
                    pay: *pay,
                    target: *target,
                },
            PolicyAction::PlayLandWithEntryLifePayment { card, pay_life } =>
                ActionView::PlayLandWithEntryLifePayment { card: *card, pay_life: *pay_life },
        }
    }
}

// ---------------------------------------------------------------------------
// Reading the view
// ---------------------------------------------------------------------------

/// The first position in `items` where `pred` holds, if any.
#[verifier::opaque]
pub open spec fn first_where<T>(items: Seq<T>, pred: spec_fn(T) -> bool) -> Option<int> {
    if exists|i: int| 0 <= i < items.len() && pred(#[trigger] items[i]) {
        Some(
            choose|i: int|
                0 <= i < items.len() && pred(#[trigger] items[i]) && forall|k: int|
                    0 <= k < i ==> !pred(#[trigger] items[k]),
        )
    } else {
        None
    }
}

/// The first match is where `pred` first holds.
pub proof fn lemma_first_where_at<T>(items: Seq<T>, pred: spec_fn(T) -> bool, i: int)
    requires
        0 <= i < items.len(),
        pred(items[i]),
        forall|k: int| 0 <= k < i ==> !pred(#[trigger] items[k]),
    ensures
        first_where(items, pred) == Some(i),
{
    reveal(first_where);
    let c = choose|c: int|
        0 <= c < items.len() && pred(#[trigger] items[c]) && forall|k: int| 0 <= k < c ==> !pred(#[trigger] items[k]);
    assert(0 <= c < items.len() && pred(items[c]) && forall|k: int| 0 <= k < c ==> !pred(#[trigger] items[k]));
    if c < i {
        assert(!pred(items[c]));
    }
    if c > i {
        assert(!pred(items[i]));
    }
}

proof fn lemma_least<T>(items: Seq<T>, pred: spec_fn(T) -> bool, j: int)
    requires
        0 <= j < items.len(),
        pred(items[j]),
    ensures
        exists|i: int|
            0 <= i < items.len() && pred(#[trigger] items[i]) && forall|k: int| 0 <= k < i ==> !pred(#[trigger] items[k]),
    decreases j,
{
    if exists|k: int| 0 <= k < j && pred(#[trigger] items[k]) {
        let k = choose|k: int| 0 <= k < j && pred(#[trigger] items[k]);
        lemma_least(items, pred, k);
    } else {
        assert(0 <= j < items.len() && pred(items[j]) && forall|k: int| 0 <= k < j ==> !pred(#[trigger] items[k]));
    }
}

/// A first match is in range and matches.
pub proof fn lemma_first_where_holds<T>(items: Seq<T>, pred: spec_fn(T) -> bool)
    ensures
        first_where(items, pred) matches Some(i) ==> 0 <= i < items.len() && pred(items[i]),
{
    reveal(first_where);
    if exists|j: int| 0 <= j < items.len() && pred(#[trigger] items[j]) {
        let j = choose|j: int| 0 <= j < items.len() && pred(#[trigger] items[j]);
        lemma_least(items, pred, j);
    }
}

/// With no match, there is no first one.
pub proof fn lemma_first_where_none<T>(items: Seq<T>, pred: spec_fn(T) -> bool)
    requires
        forall|k: int| 0 <= k < items.len() ==> !pred(#[trigger] items[k]),
    ensures
        first_where(items, pred) is None,
{
    reveal(first_where);
}

/// The ids of the cards where `pred` holds, in order.
pub open spec fn ids_where(cards: Seq<CardView>, pred: spec_fn(CardView) -> bool) -> Seq<ObjectId>
    decreases cards.len(),
{
    if cards.len() == 0 {
        Seq::empty()
    } else {
        let earlier = ids_where(cards.drop_last(), pred);
        if pred(cards.last()) {
            earlier.push(cards.last().id)
        } else {
            earlier
        }
    }
}

/// How many cards `pred` holds for.
pub open spec fn count_where(cards: Seq<CardView>, pred: spec_fn(CardView) -> bool) -> nat
    decreases cards.len(),
{
    if cards.len() == 0 {
        0
    } else {
        count_where(cards.drop_last(), pred) + if pred(cards.last()) {
            1nat
        } else {
            0nat
        }
    }
}

/// At most one more card per card scanned.
pub proof fn lemma_count_where_bound(cards: Seq<CardView>, pred: spec_fn(CardView) -> bool)
    ensures
        count_where(cards, pred) <= cards.len(),
        ids_where(cards, pred).len() == count_where(cards, pred),
    decreases cards.len(),
{
    if cards.len() > 0 {
        lemma_count_where_bound(cards.drop_last(), pred);
    }
}

/// Whether the card is the one with definition id `definition`.
pub open spec fn is_named(definition: Seq<char>) -> spec_fn(CardView) -> bool {
    |card: CardView| card.definition matches Some(id) && id@ == definition
}

/// Whether the card has the given type.
pub open spec fn has_type(card: CardView, kind: CardType) -> bool {
    card.card_types@.contains(kind)
}

/// Whether the card is a land.
pub open spec fn is_land() -> spec_fn(CardView) -> bool {
    |card: CardView| has_type(card, CardType::Land)
}

/// Whether the card is a land making mana of `color`.
pub open spec fn is_land_of(color: Color) -> spec_fn(CardView) -> bool {
    |card: CardView| has_type(card, CardType::Land) && card.mana_colors@.contains(color)
}

/// Whether the card is an untapped land with an intrinsic mana ability.
pub open spec fn is_ready_land() -> spec_fn(CardView) -> bool {
    |card: CardView| !card.tapped && has_type(card, CardType::Land) && card.mana_colors@.len() > 0
}

/// Whether the card is an untapped land with a mana ability making `color`.
pub open spec fn is_ready_land_of(color: Color) -> spec_fn(CardView) -> bool {
    |card: CardView|
        !card.tapped && has_type(card, CardType::Land) && card.mana_colors@.len() > 0
            && card.mana_colors@.contains(color)
}

/// Whether the card is a creature.
pub open spec fn is_creature() -> spec_fn(CardView) -> bool {
    |card: CardView| has_type(card, CardType::Creature)
}

/// Whether the card is an untapped creature.
pub open spec fn is_untapped_creature() -> spec_fn(CardView) -> bool {
    |card: CardView| !card.tapped && has_type(card, CardType::Creature)
}

/// Whether the card is an untapped green creature.
pub open spec fn is_untapped_green_creature() -> spec_fn(CardView) -> bool {
    |card: CardView| !card.tapped && card.colors@.contains(Color::Green) && has_type(card, CardType::Creature)
}

/// Whether the card is a green creature.
pub open spec fn is_green_creature() -> spec_fn(CardView) -> bool {
    |card: CardView| card.colors@.contains(Color::Green) && has_type(card, CardType::Creature)
}

/// Whether the card is a tapped green creature.
pub open spec fn is_tapped_green_creature() -> spec_fn(CardView) -> bool {
    |card: CardView| card.tapped && card.colors@.contains(Color::Green) && has_type(card, CardType::Creature)
}

/// Whether the card can attack.
pub open spec fn can_attack() -> spec_fn(CardView) -> bool {
    |card: CardView| card.can_attack
}

/// Floating mana of `color`.
pub open spec fn pool_amount(view: GameView, color: Color) -> u8 {
    view.mana@[color.slot()]
}

} // verus!
