//! The broad strategy profiles that rotate across the generated catalog
//! bands, and the card facts the catalog and deck policies key on.

use vstd::prelude::*;
use crate::CodePolicy;
use crate::planner::board::{Color, ObjectId, PlayerId, Step, Target};
use crate::policies::moves::{all_attackers, attackers, blocks, defensive_assignments};
use crate::policies::select::{CardFilter, definition_chars, find_card, passes};
use crate::policies::view::{
    ActionView, CardView, CatalogFacts, DecisionKind, DecisionSelection, GameView, PendingDecision, PolicyAction,
    ReplacementId, SelectionView, TriggerId, first_where,
};
use crate::text::text_eq;

verus! {

/// Six stable strategy profiles rotate across the generated catalog bands.
#[derive(Clone, Copy, Debug, PartialEq, Eq, Structural)]
pub enum CatalogPolicyProfile {
    Pressure,
    Curve,
    Control,
    Graveyard,
    TopEnd,
    Patient,
}

impl CatalogPolicyProfile {
    /// Every profile, in rotation order.
    pub const ALL: [CatalogPolicyProfile; 6] = [
        CatalogPolicyProfile::Pressure,
        CatalogPolicyProfile::Curve,
        CatalogPolicyProfile::Control,
        CatalogPolicyProfile::Graveyard,
        CatalogPolicyProfile::TopEnd,
        CatalogPolicyProfile::Patient,
    ];

    /// The strategy word a profile's policy id carries.
    pub open spec fn name_view(self) -> Seq<char> {
        match self {
            CatalogPolicyProfile::Pressure => "pressure"@,
            CatalogPolicyProfile::Curve => "curve"@,
            CatalogPolicyProfile::Control => "control"@,
            CatalogPolicyProfile::Graveyard => "graveyard"@,
            CatalogPolicyProfile::TopEnd => "top-end"@,
            CatalogPolicyProfile::Patient => "patient"@,
        }
    }

    /// The policy id: `rav.catalog-`, the strategy word, then `.v1`.
    pub open spec fn id_view(self) -> Seq<char> {
        "rav.catalog-"@ + self.name_view() + ".v1"@
    }

    /// The stable policy id of this profile.
    pub fn id(self) -> (id: &'static str)
        ensures
            id@ == self.id_view(),
    {
        proof {
            reveal_strlit("rav.catalog-");
            reveal_strlit(".v1");
            reveal_strlit("pressure");
            reveal_strlit("curve");
            reveal_strlit("control");
            reveal_strlit("graveyard");
            reveal_strlit("top-end");
            reveal_strlit("patient");
            reveal_strlit("rav.catalog-pressure.v1");
            reveal_strlit("rav.catalog-curve.v1");
            reveal_strlit("rav.catalog-control.v1");
            reveal_strlit("rav.catalog-graveyard.v1");
            reveal_strlit("rav.catalog-top-end.v1");
            reveal_strlit("rav.catalog-patient.v1");
        }
        match self {
            CatalogPolicyProfile::Pressure => {
                assert("rav.catalog-pressure.v1"@ =~= self.id_view());
                "rav.catalog-pressure.v1"
            },
            CatalogPolicyProfile::Curve => {
                assert("rav.catalog-curve.v1"@ =~= self.id_view());
                "rav.catalog-curve.v1"
            },
            CatalogPolicyProfile::Control => {
                assert("rav.catalog-control.v1"@ =~= self.id_view());
                "rav.catalog-control.v1"
            },
            CatalogPolicyProfile::Graveyard => {
                assert("rav.catalog-graveyard.v1"@ =~= self.id_view());
                "rav.catalog-graveyard.v1"
            },
            CatalogPolicyProfile::TopEnd => {
                assert("rav.catalog-top-end.v1"@ =~= self.id_view());
                "rav.catalog-top-end.v1"
            },
            CatalogPolicyProfile::Patient => {
                assert("rav.catalog-patient.v1"@ =~= self.id_view());
                "rav.catalog-patient.v1"
            },
        }
    }
}

/// Profile ids are distinct, and every one is versioned `v1`: no two
/// profiles can be confused in a result record, and each names its
/// generation in its last dotted segment.
pub proof fn profile_ids_are_distinct_and_versioned(left: CatalogPolicyProfile, right: CatalogPolicyProfile)
    ensures
        left.id_view() == right.id_view() <==> left == right,
        left.id_view().len() >= 3,
        left.id_view().subrange(left.id_view().len() - 3, left.id_view().len() as int) == ".v1"@,
{
    reveal_strlit("rav.catalog-");
    reveal_strlit(".v1");
    reveal_strlit("pressure");
    reveal_strlit("curve");
    reveal_strlit("control");
    reveal_strlit("graveyard");
    reveal_strlit("top-end");
    reveal_strlit("patient");
    let l = left.id_view();
    let r = right.id_view();
    assert(l.subrange(l.len() - 3, l.len() as int) =~= ".v1"@);
    if l == r && left != right {
        assert(l.len() == r.len());
        assert(l[12] == r[12]);
        assert(l[13] == r[13]);
    }
}

/// The shock lands: dual lands that may enter untapped for a life payment.
pub open spec fn is_shock_land_view(definition: Option<Seq<char>>) -> bool {
    match definition {
        Some(id) => id == "RAV-OVERGROWN-TOMB"@ || id == "RAV-SACRED-FOUNDRY"@ || id
            == "RAV-TEMPLE-GARDEN"@ || id == "RAV-WATERY-GRAVE"@,
        None => false,
    }
}

/// Whether the land with this definition id is a shock land.
pub fn is_shock_land(definition: Option<&str>) -> (shock: bool)
    ensures
        shock == is_shock_land_view(
            match definition {
                Some(id) => Some(id@),
                None => None,
            },
        ),
{
    match definition {
        Some(id) => text_eq(id, "RAV-OVERGROWN-TOMB") || text_eq(id, "RAV-SACRED-FOUNDRY") || text_eq(
            id,
            "RAV-TEMPLE-GARDEN",
        ) || text_eq(id, "RAV-WATERY-GRAVE"),
        None => false,
    }
}

/// The first `n` items, or all of them when there are fewer.
pub open spec fn at_most<T>(items: Seq<T>, n: int) -> Seq<T> {
    if n < items.len() {
        items.take(n)
    } else {
        items
    }
}

/// The ids of a decision's candidate cards, in order.
pub open spec fn candidate_ids(decision: PendingDecision) -> Seq<ObjectId> {
    decision.candidates@.map_values(|card: CardView| card.id)
}

/// The conservative answer to a decision: keep every candidate where the
/// decision returns or orders them, choose the fewest allowed where it takes
/// them, decline every optional payment, cast or copy, and take the first
/// offered colour, name or replacement. `None` when the decision offers
/// nothing to take.
pub open spec fn conservative_choice(decision: PendingDecision) -> Option<SelectionView> {
    let ids = candidate_ids(decision);
    let least = decision.min_selections as int;
    match decision.kind {
        DecisionKind::CommanderReturn | DecisionKind::CommanderZoneReplacement => Some(SelectionView::Objects(ids)),
        DecisionKind::WarpWorldEntry
        | DecisionKind::LibrarySearch
        | DecisionKind::TriggeredEffectObject
        | DecisionKind::ConditionalPrivateDiscard
        | DecisionKind::TargetPlayerSacrificeCreatureThenControllerDrawsEqualToPower
        | DecisionKind::TargetPlayerLibraryTopMayGraveyard
        | DecisionKind::PublicGraveyardCreatureReturn
        | DecisionKind::PublicGraveyardLandReturn
        | DecisionKind::SourceLinkedExileCreatureReturn
        | DecisionKind::PreserveControlledPermanents
        | DecisionKind::RetargetActivatedAbility
        | DecisionKind::PermanentEntryCopySource
        | DecisionKind::PermanentEntryCopyAuraAttachment
        | DecisionKind::LegendRule
        | DecisionKind::CleanupDiscard => Some(SelectionView::Objects(at_most(ids, least))),
        DecisionKind::WarpWorldBottom
        | DecisionKind::LibraryReorder
        | DecisionKind::HandToLibraryBottomDraw
        | DecisionKind::CombatDamageOrder => Some(SelectionView::Objects(ids)),
        DecisionKind::LibrarySearchAndCast => Some(
            SelectionView::LibrarySearchAndCast { selected: None, targets: Seq::empty() },
        ),
        DecisionKind::LibraryTopPartition => if ids.len() == 0 {
            None
        } else {
            Some(
                SelectionView::LibraryTopPartition {
                    hand: ids[0],
                    top: if ids.len() >= 2 {
                        Some(ids[1])
                    } else {
                        None
                    },
                    bottom: if ids.len() >= 2 {
                        ids.skip(2).reverse()
                    } else {
                        Seq::empty()
                    },
                },
            )
        },
        DecisionKind::TargetPlayerLibraryTopReorder => Some(
            SelectionView::TargetPlayerLibraryTopReorder { top: ids, bottom: Seq::empty() },
        ),
        DecisionKind::SpellCopyTargets => Some(SelectionView::Targets(Seq::empty())),
        DecisionKind::ExiledSpellCopyCast => Some(
            SelectionView::ExiledSpellCopyCast { card: None, targets: Seq::empty(), mode: None, color: None },
        ),
        DecisionKind::TriggeredAbilityTargets => Some(
            SelectionView::Targets(at_most(decision.target_candidates@, least)),
        ),
        DecisionKind::TriggeredAbilityOrder => Some(SelectionView::TriggerOrder(decision.trigger_candidates@)),
        DecisionKind::Replacement => Some(
            SelectionView::Replacements(
                if decision.replacement_candidates@.len() > 0 {
                    seq![decision.replacement_candidates@[0]]
                } else {
                    Seq::empty()
                },
            ),
        ),
        DecisionKind::CounterUnlessPaysMana => Some(SelectionView::CounterUnlessPaysMana { pay: false }),
        DecisionKind::CounterUnlessDiscardsHand => Some(SelectionView::CounterUnlessDiscardsHand { discard: false }),
        DecisionKind::TargetPlayerManaColor => if decision.color_candidates@.len() > 0 {
            Some(SelectionView::Color(decision.color_candidates@[0]))
        } else {
            None
        },
        DecisionKind::NamedCardTargetLibraryTraversal => if decision.card_name_candidates@.len() > 0 {
            Some(SelectionView::CardName(decision.card_name_candidates@[0]))
        } else {
            None
        },
    }
}

/// The conservative move for a view with a pending decision.
pub open spec fn conservative_decision(view: GameView) -> Option<ActionView> {
    match view.pending_decision {
        Some(decision) => match conservative_choice(decision) {
            Some(selection) => Some(ActionView::SubmitDecision { decision: decision.id, selection }),
            None => None,
        },
        None => None,
    }
}

fn candidate_id_list(decision: &PendingDecision) -> (ids: Vec<ObjectId>)
    ensures
        ids@ == candidate_ids(*decision),
{
    let mut ids: Vec<ObjectId> = Vec::new();
    let mut i: usize = 0;
    while i < decision.candidates.len()
        invariant
            i <= decision.candidates@.len(),
            ids@ =~= decision.candidates@.take(i as int).map_values(|card: CardView| card.id),
        decreases decision.candidates@.len() - i,
    {
        ids.push(decision.candidates[i].id);
        i = i + 1;
        assert(decision.candidates@.take(i as int).map_values(|card: CardView| card.id) =~= decision.candidates@.take(
            (i - 1) as int,
        ).map_values(|card: CardView| card.id).push(decision.candidates@[i - 1].id));
    }
    assert(decision.candidates@.take(i as int) =~= decision.candidates@);
    ids
}

fn first_objects(items: &Vec<ObjectId>, n: u8) -> (out: Vec<ObjectId>)
    ensures
        out@ == at_most(items@, n as int),
{
    let mut out: Vec<ObjectId> = Vec::new();
    let mut i: usize = 0;
    while i < items.len() && i < n as usize
        invariant
            i <= items@.len(),
            i <= n,
            out@ =~= items@.take(i as int),
        decreases items@.len() - i,
    {
        out.push(items[i]);
        i = i + 1;
    }
    proof {
        if (n as int) < items@.len() {
            assert(out@ =~= items@.take(n as int));
        } else {
            assert(out@ =~= items@);
        }
    }
    out
}

fn first_targets(items: &Vec<Target>, n: u8) -> (out: Vec<Target>)
    ensures
        out@ == at_most(items@, n as int),
{
    let mut out: Vec<Target> = Vec::new();
    let mut i: usize = 0;
    while i < items.len() && i < n as usize
        invariant
            i <= items@.len(),
            i <= n,
            out@ =~= items@.take(i as int),
        decreases items@.len() - i,
    {
        out.push(items[i]);
        i = i + 1;
    }
    proof {
        if (n as int) < items@.len() {
            assert(out@ =~= items@.take(n as int));
        } else {
            assert(out@ =~= items@);
        }
    }
    out
}

fn copy_ids(items: &Vec<ObjectId>) -> (out: Vec<ObjectId>)
    ensures
        out@ == items@,
{
    let mut out: Vec<ObjectId> = Vec::new();
    let mut i: usize = 0;
    while i < items.len()
        invariant
            i <= items@.len(),
            out@ =~= items@.take(i as int),
        decreases items@.len() - i,
    {
        out.push(items[i]);
        i = i + 1;
    }
    assert(out@ =~= items@);
    out
}

fn copy_triggers(items: &Vec<TriggerId>) -> (out: Vec<TriggerId>)
    ensures
        out@ == items@,
{
    let mut out: Vec<TriggerId> = Vec::new();
    let mut i: usize = 0;
    while i < items.len()
        invariant
            i <= items@.len(),
            out@ =~= items@.take(i as int),
        decreases items@.len() - i,
    {
        out.push(items[i]);
        i = i + 1;
    }
    assert(out@ =~= items@);
    out
}

/// The candidates after the first two, last first.
fn reversed_tail(ids: &Vec<ObjectId>) -> (out: Vec<ObjectId>)
    requires
        ids@.len() >= 2,
    ensures
        out@ == ids@.skip(2).reverse(),
{
    let mut out: Vec<ObjectId> = Vec::new();
    let mut i: usize = ids.len();
    while i > 2
        invariant
            2 <= i <= ids@.len(),
            out@ =~= ids@.skip(i as int).reverse(),
        decreases i,
    {
        i = i - 1;
        out.push(ids[i]);
        assert(ids@.skip(i as int).reverse() =~= ids@.skip((i + 1) as int).reverse().push(ids@[i as int]));
    }
    out
}

/// The conservative answer to the pending decision, if the view has one and
/// it offers something to take.
pub fn conservative_pending_decision(view: &GameView) -> (action: Option<PolicyAction>)
    ensures
        match action {
            Some(found) => conservative_decision(*view) == Some(found@),
            None => conservative_decision(*view) is None,
        },
{
    let decision = match &view.pending_decision {
        Some(decision) => decision,
        None => return None,
    };
    let ids = candidate_id_list(decision);
    let selection = match decision.kind {
        DecisionKind::CommanderReturn | DecisionKind::CommanderZoneReplacement => DecisionSelection::Objects(ids),
        DecisionKind::WarpWorldEntry
        | DecisionKind::LibrarySearch
        | DecisionKind::TriggeredEffectObject
        | DecisionKind::ConditionalPrivateDiscard
        | DecisionKind::TargetPlayerSacrificeCreatureThenControllerDrawsEqualToPower
        | DecisionKind::TargetPlayerLibraryTopMayGraveyard
        | DecisionKind::PublicGraveyardCreatureReturn
        | DecisionKind::PublicGraveyardLandReturn
        | DecisionKind::SourceLinkedExileCreatureReturn
        | DecisionKind::PreserveControlledPermanents
        | DecisionKind::RetargetActivatedAbility
        | DecisionKind::PermanentEntryCopySource
        | DecisionKind::PermanentEntryCopyAuraAttachment
        | DecisionKind::LegendRule
        | DecisionKind::CleanupDiscard => DecisionSelection::Objects(first_objects(&ids, decision.min_selections)),
        DecisionKind::WarpWorldBottom
        | DecisionKind::LibraryReorder
        | DecisionKind::HandToLibraryBottomDraw
        | DecisionKind::CombatDamageOrder => DecisionSelection::Objects(ids),
        DecisionKind::LibrarySearchAndCast => DecisionSelection::LibrarySearchAndCast {
            selected: None,
            targets: Vec::new(),
        },
        DecisionKind::LibraryTopPartition => {
            if ids.len() == 0 {
                return None;
            }
            let hand = ids[0];
            if ids.len() >= 2 {
                let top = Some(ids[1]);
                let bottom = reversed_tail(&ids);
                DecisionSelection::LibraryTopPartition { hand, top, bottom }
            } else {
                DecisionSelection::LibraryTopPartition { hand, top: None, bottom: Vec::new() }
            }
        },
        DecisionKind::TargetPlayerLibraryTopReorder => DecisionSelection::TargetPlayerLibraryTopReorder {
            top: copy_ids(&ids),
            bottom: Vec::new(),
        },
        DecisionKind::SpellCopyTargets => DecisionSelection::Targets(Vec::new()),
        DecisionKind::ExiledSpellCopyCast => DecisionSelection::ExiledSpellCopyCast {
            card: None,
            targets: Vec::new(),
            mode: None,
            color: None,
        },
        DecisionKind::TriggeredAbilityTargets => DecisionSelection::Targets(
            first_targets(&decision.target_candidates, decision.min_selections),
        ),
        DecisionKind::TriggeredAbilityOrder => DecisionSelection::TriggerOrder(
            copy_triggers(&decision.trigger_candidates),
        ),
        DecisionKind::Replacement => {
            let mut chosen: Vec<ReplacementId> = Vec::new();
            if decision.replacement_candidates.len() > 0 {
                chosen.push(decision.replacement_candidates[0]);
            }
            assert(chosen@ =~= if decision.replacement_candidates@.len() > 0 {
                seq![decision.replacement_candidates@[0]]
            } else {
                Seq::<ReplacementId>::empty()
            });
            DecisionSelection::Replacements(chosen)
        },
        DecisionKind::CounterUnlessPaysMana => DecisionSelection::CounterUnlessPaysMana { pay: false },
        DecisionKind::CounterUnlessDiscardsHand => DecisionSelection::CounterUnlessDiscardsHand { discard: false },
        DecisionKind::TargetPlayerManaColor => {
            if decision.color_candidates.len() == 0 {
                return None;
            }
            DecisionSelection::Color(decision.color_candidates[0])
        },
        DecisionKind::NamedCardTargetLibraryTraversal => {
            if decision.card_name_candidates.len() == 0 {
                return None;
            }
            DecisionSelection::CardName(decision.card_name_candidates[0])
        },
    };
    Some(PolicyAction::SubmitDecision { decision: decision.id, selection })
}

// ---------------------------------------------------------------------------
// The catalog policy
// ---------------------------------------------------------------------------

/// Whether the floating mana pays a catalog card's cost: each colour covers
/// its coloured symbols and what is left covers the generic ones.
pub open spec fn catalog_paid(view: GameView, facts: CatalogFacts) -> bool {
    &&& forall|s: int| 0 <= s < 6 ==> #[trigger] view.mana@[s] >= facts.colored@[s]
    &&& facts.colored_len <= u16::MAX
    &&& (if view.mana_total_exact >= facts.colored_len {
        view.mana_total_exact - facts.colored_len
    } else {
        0
    }) >= facts.generic
}

/// Whether the catalog policy may cast this card from hand now.
pub open spec fn castable(view: GameView, card: CardView) -> bool {
    card.catalog matches Some(facts) && facts.safe && catalog_paid(view, facts)
}

/// Whether `a` sorts before `b`: by mana value, then by object id.
pub open spec fn cheaper(a: CardView, b: CardView) -> bool {
    a.catalog->0.mana_value < b.catalog->0.mana_value || (a.catalog->0.mana_value == b.catalog->0.mana_value
        && a.id.0 < b.id.0)
}

/// Among the first `n` cards in hand, the castable one first in
/// (mana value, id) order, the earliest of equals.
pub open spec fn cheapest_castable(view: GameView, n: int) -> Option<int>
    decreases n,
{
    if n <= 0 {
        None
    } else {
        let earlier = cheapest_castable(view, n - 1);
        let card = view.hand@[n - 1];
        if castable(view, card) && (earlier is None || cheaper(card, view.hand@[earlier->0])) {
            Some(n - 1)
        } else {
            earlier
        }
    }
}

/// Among the first `n` cards in hand, the castable one last in
/// (mana value, id) order, the latest of equals.
pub open spec fn dearest_castable(view: GameView, n: int) -> Option<int>
    decreases n,
{
    if n <= 0 {
        None
    } else {
        let earlier = dearest_castable(view, n - 1);
        let card = view.hand@[n - 1];
        if castable(view, card) && (earlier is None || !cheaper(card, view.hand@[earlier->0])) {
            Some(n - 1)
        } else {
            earlier
        }
    }
}

/// The spell the catalog policy casts: the dearest castable one for the
/// top-end and control profiles, the cheapest for the others.
pub open spec fn catalog_spell(view: GameView, profile: CatalogPolicyProfile) -> Option<int> {
    if profile == CatalogPolicyProfile::TopEnd || profile == CatalogPolicyProfile::Control {
        dearest_castable(view, view.hand@.len() as int)
    } else {
        cheapest_castable(view, view.hand@.len() as int)
    }
}

/// The land to play: a basic first, else any land.
pub open spec fn catalog_land(view: GameView) -> Option<int> {
    match first_where(view.hand@, passes(CardFilter::BasicLand)) {
        Some(i) => Some(i),
        None => first_where(view.hand@, passes(CardFilter::Land)),
    }
}

/// The mana to make: the first untapped basic land, for its first colour.
pub open spec fn catalog_mana(view: GameView) -> Option<(ObjectId, Color)> {
    match first_where(view.own_battlefield@, passes(CardFilter::UntappedBasicLand)) {
        Some(i) => if view.own_battlefield@[i].mana_colors@.len() > 0 {
            Some((view.own_battlefield@[i].id, view.own_battlefield@[i].mana_colors@[0]))
        } else {
            None
        },
        None => None,
    }
}

/// The catalog policy's move in its own main phase with priority and an
/// empty stack.
pub open spec fn catalog_main(view: GameView, profile: CatalogPolicyProfile) -> ActionView {
    if view.lands_played == 0 && catalog_land(view) is Some {
        let land = view.hand@[catalog_land(view)->0];
        if is_shock_land_view(definition_chars(land)) {
            ActionView::PlayLandWithEntryLifePayment { card: land.id, pay_life: false }
        } else {
            ActionView::PlayLand { card: land.id }
        }
    } else if catalog_spell(view, profile) is Some {
        ActionView::Cast {
            card: view.hand@[catalog_spell(view, profile)->0].id,
            targets: Seq::empty(),
            convoke: Seq::empty(),
        }
    } else {
        match catalog_mana(view) {
            Some((land, color)) => ActionView::ActivateManaAbility { land, color },
            None => ActionView::PassPriority,
        }
    }
}

/// The catalog policy's move for `player` with `profile` given `view`.
pub open spec fn catalog_move(player: PlayerId, profile: CatalogPolicyProfile, view: GameView) -> ActionView {
    if view.player != player || view.decision_player != player {
        ActionView::PassPriority
    } else if view.optional_triggered_ability_choice is Some {
        let choice = view.optional_triggered_ability_choice->0;
        ActionView::ResolveOptionalTriggeredAbility {
            decision: choice.decision,
            source: choice.source,
            ability: choice.ability,
            pay: false,
            target: None,
        }
    } else if view.step == Step::DeclareAttackers && view.active_player == player && !view.attackers_declared {
        ActionView::DeclareAttackers {
            attackers: if profile == CatalogPolicyProfile::Patient {
                Seq::empty()
            } else {
                all_attackers(view)
            },
        }
    } else if view.step == Step::DeclareBlockers && view.active_player != player && !view.blockers_declared {
        ActionView::DeclareBlockers { assignments: blocks(view) }
    } else if !(view.step == Step::PrecombatMain || view.step == Step::PostcombatMain) {
        ActionView::PassPriority
    } else if view.priority != player || view.stack_depth != 0 || view.active_player != player {
        ActionView::PassPriority
    } else {
        catalog_main(view, profile)
    }
}

/// A public-information policy that develops mana, casts safe target-free
/// permanents through the normal stack, makes deterministic decisions, and
/// completes combat. Its profile changes spell ordering, combat posture and
/// draw replacements.
#[derive(Clone, Copy, Debug, PartialEq, Eq, Structural)]
pub struct RavCatalogPolicy {
    player: PlayerId,
    profile: CatalogPolicyProfile,
}

impl RavCatalogPolicy {
    /// The seat this policy plays.
    pub closed spec fn seat(self) -> PlayerId {
        self.player
    }

    /// The policy's profile.
    pub closed spec fn style(self) -> CatalogPolicyProfile {
        self.profile
    }

    pub fn new(player: PlayerId, profile: CatalogPolicyProfile) -> (policy: RavCatalogPolicy)
        ensures
            policy.seat() == player,
            policy.style() == profile,
    {
        RavCatalogPolicy { player, profile }
    }

    /// Completes a pending decision the conservative way.
    pub fn propose_pending_decision(&mut self, view: &GameView) -> (action: Option<PolicyAction>)
        ensures
            match action {
                Some(found) => conservative_decision(*view) == Some(found@),
                None => conservative_decision(*view) is None,
            },
            *final(self) == *old(self),
    {
        conservative_pending_decision(view)
    }
}

impl CodePolicy for RavCatalogPolicy {
    /// The policy's identifier: its profile's.
    fn id(&self) -> (id: &'static str)
        ensures
            id@ == self.style().id_view(),
    {
        self.profile.id()
    }

    /// The move this policy proposes given `view`.
    fn propose_move(&mut self, view: &GameView) -> (action: PolicyAction)
        ensures
            action@ == catalog_move(old(self).seat(), old(self).style(), *view),
            *final(self) == *old(self),
    {
        let player = self.player;
        if view.player != player || view.decision_player != player {
            return PolicyAction::PassPriority;
        }
        if let Some(choice) = view.optional_triggered_ability_choice {
            return PolicyAction::ResolveOptionalTriggeredAbility {
                decision: choice.decision,
                source: choice.source,
                ability: choice.ability,
                pay: false,
                target: None,
            };
        }
        if view.step == Step::DeclareAttackers && view.active_player == player && !view.attackers_declared {
            let chosen = if self.profile == CatalogPolicyProfile::Patient {
                Vec::new()
            } else {
                attackers(view)
            };
            return PolicyAction::DeclareAttackers { attackers: chosen };
        }
        if view.step == Step::DeclareBlockers && view.active_player != player && !view.blockers_declared {
            return PolicyAction::DeclareBlockers { assignments: defensive_assignments(view) };
        }
        if !(view.step == Step::PrecombatMain || view.step == Step::PostcombatMain) {
            return PolicyAction::PassPriority;
        }
        if view.priority != player || view.stack_depth != 0 || view.active_player != player {
            return PolicyAction::PassPriority;
        }
        catalog_main_move(view, self.profile)
    }

    /// The graveyard profile dredges the first candidate in place of a draw;
    /// the others take the draw.
    fn propose_draw_replacement(&mut self, view: &GameView) -> (action: PolicyAction)
        ensures
            action@ == (ActionView::Draw {
                dredge: if old(self).style() == CatalogPolicyProfile::Graveyard && view.dredge_candidates@.len() > 0 {
                    Some(view.dredge_candidates@[0].id)
                } else {
                    None
                },
            }),
            *final(self) == *old(self),
    {
        let dredge = if self.profile == CatalogPolicyProfile::Graveyard && view.dredge_candidates.len() > 0 {
            Some(view.dredge_candidates[0].id)
        } else {
            None
        };
        PolicyAction::Draw { dredge }
    }
}

/// Whether the floating mana pays a catalog card's cost.
fn can_pay(view: &GameView, facts: &CatalogFacts) -> (paid: bool)
    ensures
        paid == catalog_paid(*view, *facts),
{
    let mut s: usize = 0;
    while s < 6
        invariant
            s <= 6,
            forall|k: int| 0 <= k < s ==> #[trigger] view.mana@[k] >= facts.colored@[k],
        decreases 6 - s,
    {
        if view.mana[s] < facts.colored[s] {
            return false;
        }
        s = s + 1;
    }
    if facts.colored_len > 65535 {
        return false;
    }
    view.mana_total_exact.saturating_sub(facts.colored_len as u16) >= facts.generic as u16
}

/// Whether the catalog policy may cast this card from hand now.
fn is_castable(view: &GameView, card: &CardView) -> (ok: bool)
    ensures
        ok == castable(*view, *card),
{
    match &card.catalog {
        Some(facts) => facts.safe && can_pay(view, facts),
        None => false,
    }
}

/// Whether `a` sorts before `b`: by mana value, then by object id.
fn sorts_before(a: &CardView, b: &CardView) -> (before: bool)
    requires
        a.catalog is Some,
        b.catalog is Some,
    ensures
        before == cheaper(*a, *b),
{
    let a_value = a.catalog.unwrap().mana_value;
    let b_value = b.catalog.unwrap().mana_value;
    a_value < b_value || (a_value == b_value && a.id.0 < b.id.0)
}

/// The spell the catalog policy casts, as a position in hand.
fn spell_to_cast(view: &GameView, profile: CatalogPolicyProfile) -> (choice: Option<usize>)
    ensures
        match choice {
            Some(i) => catalog_spell(*view, profile) == Some(i as int) && i < view.hand@.len(),
            None => catalog_spell(*view, profile) is None,
        },
{
    let dearest = profile == CatalogPolicyProfile::TopEnd || profile == CatalogPolicyProfile::Control;
    let mut best: Option<usize> = None;
    let mut i: usize = 0;
    while i < view.hand.len()
        invariant
            i <= view.hand@.len(),
            dearest == (profile == CatalogPolicyProfile::TopEnd || profile == CatalogPolicyProfile::Control),
            match best {
                Some(b) => (b as int) < i && (if dearest {
                    dearest_castable(*view, i as int)
                } else {
                    cheapest_castable(*view, i as int)
                }) == Some(b as int) && castable(*view, view.hand@[b as int]),
                None => (if dearest {
                    dearest_castable(*view, i as int)
                } else {
                    cheapest_castable(*view, i as int)
                }) is None,
            },
        decreases view.hand@.len() - i,
    {
        let card = &view.hand[i];
        if is_castable(view, card) {
            match best {
                None => {
                    best = Some(i);
                },
                Some(b) => {
                    let before = sorts_before(card, &view.hand[b]);
                    if (dearest && !before) || (!dearest && before) {
                        best = Some(i);
                    }
                },
            }
        }
        i = i + 1;
    }
    best
}

/// The catalog policy's move in its own main phase with priority and an
/// empty stack.
fn catalog_main_move(view: &GameView, profile: CatalogPolicyProfile) -> (action: PolicyAction)
    ensures
        action@ == catalog_main(*view, profile),
{
    if view.lands_played == 0 {
        let land = match find_card(&view.hand, CardFilter::BasicLand) {
            Some(i) => Some(i),
            None => find_card(&view.hand, CardFilter::Land),
        };
        if let Some(i) = land {
            let card = &view.hand[i];
            if is_shock_land(card.definition) {
                return PolicyAction::PlayLandWithEntryLifePayment { card: card.id, pay_life: false };
            }
            return PolicyAction::PlayLand { card: card.id };
        }
    }
    if let Some(i) = spell_to_cast(view, profile) {
        return PolicyAction::Cast(
            crate::policies::view::CastRequest { card: view.hand[i].id, targets: Vec::new(), convoke: Vec::new() },
        );
    }
    match find_card(&view.own_battlefield, CardFilter::UntappedBasicLand) {
        Some(i) => {
            let land = &view.own_battlefield[i];
            if land.mana_colors.len() > 0 {
                PolicyAction::ActivateManaAbility { land: land.id, color: land.mana_colors[0] }
            } else {
                PolicyAction::PassPriority
            }
        },
        None => PolicyAction::PassPriority,
    }
}

} // verus!
