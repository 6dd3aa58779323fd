//! Mana planning: which costs are payable now, and what to tap for them.
//!
//! Given the untapped sources on the board and a printed cost, the planner
//! produces an ordered tap sequence that pays it, searching depth-first over
//! the sources that can pay the most constrained unpaid symbol.

use vstd::prelude::*;
use crate::planner::completeness::{plan_finds_every_payment, selection, selection_yield, within_pool_range};
use crate::planner::payment::{floating_mana_alone_pays, payable, pays_with, plan_covers, plan_pays_its_cost, plan_wastes, plus, widen};
use crate::planner::board::{Board, Color, ManaCost, ObjectId, Permanent, SourceKind, copy_colors};

verus! {

/// One mana activation the policy should submit.
#[derive(Clone, Debug, PartialEq, Eq)]
pub enum ManaTap {
    /// A land with intrinsic basic-land mana, tapped for one colour.
    Basic { land: ObjectId, color: Color },
    /// A bound ability with a fixed or chosen single-colour output.
    Bound { source: ObjectId, ability: &'static str, color: Option<Color> },
    /// A bound ability producing a fixed multi-mana bundle.
    Bundle { source: ObjectId, ability: &'static str, bundle: Vec<(Color, u8)> },
}

/// The mathematical value of a [`ManaTap`].
pub enum TapView {
    Basic { land: ObjectId, color: Color },
    Bound { source: ObjectId, ability: &'static str, color: Option<Color> },
    Bundle { source: ObjectId, ability: &'static str, bundle: Seq<(Color, u8)> },
}

impl View for ManaTap {
    type V = TapView;

    open spec fn view(&self) -> TapView {
        match self {
            ManaTap::Basic { land, color } => TapView::Basic { land: *land, color: *color },
            ManaTap::Bound { source, ability, color } => TapView::Bound {
                source: *source,
                ability: *ability,
                color: *color,
            },
            ManaTap::Bundle { source, ability, bundle } => TapView::Bundle {
                source: *source,
                ability: *ability,
                bundle: bundle@,
            },
        }
    }
}

impl TapView {
    /// The object this activation taps.
    pub open spec fn object(self) -> ObjectId {
        match self {
            TapView::Basic { land, .. } => land,
            TapView::Bound { source, .. } => source,
            TapView::Bundle { source, .. } => source,
        }
    }
}

impl ManaTap {
    /// The object this activation taps.
    pub fn source(&self) -> (object: ObjectId)
        ensures
            object == self@.object(),
    {
        match self {
            ManaTap::Basic { land, .. } => *land,
            ManaTap::Bound { source, .. } => *source,
            ManaTap::Bundle { source, .. } => *source,
        }
    }
}

/// The views of a tap sequence.
pub open spec fn tap_views(taps: Seq<ManaTap>) -> Seq<TapView> {
    taps.map_values(|tap: ManaTap| tap@)
}

/// A complete payment for one cost.
#[derive(Clone, Debug, PartialEq, Eq)]
pub struct ManaPlan {
    /// Activations to submit, in order, before casting.
    pub taps: Vec<ManaTap>,
    /// Mana produced beyond the cost, saturated at `u8::MAX`.
    pub waste: u8,
}

/// An untapped source available this window: the slot of a permanent in
/// `board.mine`, its object, and its tapping priority (lower goes first).
#[derive(Clone, Copy, Debug, PartialEq, Eq, Structural)]
pub struct Source {
    pub slot: usize,
    pub object: ObjectId,
    pub priority: u8,
}

// ---------------------------------------------------------------------------
// Pools
// ---------------------------------------------------------------------------

/// `value` clamped to a `u8`.
pub open spec fn sat(value: int) -> u8 {
    if value > 255 {
        255
    } else if value < 0 {
        0
    } else {
        value as u8
    }
}

/// The empty pool.
pub open spec fn zero_pool() -> Seq<u8> {
    seq![0u8, 0u8, 0u8, 0u8, 0u8, 0u8]
}

/// `pool` with `amount` more mana in `slot`, saturating.
pub open spec fn pool_add(pool: Seq<u8>, slot: int, amount: int) -> Seq<u8> {
    pool.update(slot, sat(pool[slot] + amount))
}

/// The sum of the first `n` slots of a pool.
pub open spec fn pool_sum(pool: Seq<u8>, n: int) -> int
    decreases n,
{
    if n <= 0 {
        0
    } else {
        pool_sum(pool, n - 1) + pool[n - 1]
    }
}

/// Total mana in a pool.
pub open spec fn pool_total(pool: Seq<u8>) -> int {
    pool_sum(pool, 6)
}

/// One mana of colour `color`.
pub open spec fn unit_pool(color: Color) -> Seq<u8> {
    pool_add(zero_pool(), color.slot(), 1)
}

/// The pool one activation of a bundle produces.
pub open spec fn bundle_pool(bundle: Seq<(Color, u8)>) -> Seq<u8>
    decreases bundle.len(),
{
    if bundle.len() == 0 {
        zero_pool()
    } else {
        pool_add(bundle_pool(bundle.drop_last()), bundle.last().0.slot(), bundle.last().1 as int)
    }
}

/// Slot-wise saturating sum of two pools.
pub open spec fn combine(left: Seq<u8>, right: Seq<u8>) -> Seq<u8> {
    Seq::new(6, |slot: int| sat(left[slot] + right[slot]))
}

/// Every distinct way one source can be activated, as a produced pool and
/// the colour named in the activation.
pub open spec fn option_list(kind: SourceKind) -> Seq<(Seq<u8>, Option<Color>)> {
    match kind {
        SourceKind::BasicTyped(colors) => colors@.map_values(
            |color: Color| (unit_pool(color), Some(color)),
        ),
        SourceKind::BoundChoice { colors, .. } => colors@.map_values(
            |color: Color| (unit_pool(color), Some(color)),
        ),
        SourceKind::BoundFixed { color, .. } => seq![(unit_pool(color), Some(color))],
        SourceKind::BoundBundle { bundle, .. } => seq![(bundle_pool(bundle@), None)],
    }
}

/// The views of an executable option list.
pub open spec fn option_views(options: Seq<([u8; 6], Option<Color>)>) -> Seq<(Seq<u8>, Option<Color>)> {
    options.map_values(|entry: ([u8; 6], Option<Color>)| (entry.0@, entry.1))
}

/// The activation submitted for one option of one source.
pub open spec fn tap_spec(kind: SourceKind, object: ObjectId, color: Option<Color>) -> TapView {
    match kind {
        SourceKind::BasicTyped(_) => TapView::Basic { land: object, color: color->0 },
        SourceKind::BoundFixed { ability, .. } => TapView::Bound {
            source: object,
            ability,
            color: None,
        },
        SourceKind::BoundChoice { ability, .. } => TapView::Bound { source: object, ability, color },
        SourceKind::BoundBundle { ability, bundle } => TapView::Bundle {
            source: object,
            ability,
            bundle: bundle@,
        },
    }
}

// ---------------------------------------------------------------------------
// Demands and greedy settlement
// ---------------------------------------------------------------------------

/// The colour requirements of a cost, as a demand a pool must satisfy.
#[derive(Debug)]
pub struct Demand {
    /// Fixed colour symbols still unpaid.
    pub colored: Vec<Color>,
    /// Hybrid symbols, each payable with either listed colour.
    pub hybrid: Vec<(Color, Color)>,
    pub generic: u8,
}

/// The mathematical value of a demand.
pub type DemandView = (Seq<Color>, Seq<(Color, Color)>, nat);

impl View for Demand {
    type V = DemandView;

    open spec fn view(&self) -> DemandView {
        (self.colored@, self.hybrid@, self.generic as nat)
    }
}

/// Whether nothing remains to pay.
pub open spec fn demand_empty(demand: DemandView) -> bool {
    demand.0.len() == 0 && demand.1.len() == 0 && demand.2 == 0
}

/// The demand a printed cost places.
pub open spec fn cost_demand(cost: ManaCost) -> DemandView {
    (
        cost.colored@,
        cost.hybrid@.map_values(|symbol: crate::planner::board::HybridManaSymbol| (symbol.first, symbol.second)),
        cost.generic as nat,
    )
}

/// Pays fixed colour symbols from `pool`, front to back; returns the unpaid
/// symbols in order and the leftover pool.
pub open spec fn settle_colored(colored: Seq<Color>, pool: Seq<u8>) -> (Seq<Color>, Seq<u8>)
    decreases colored.len(),
{
    if colored.len() == 0 {
        (colored, pool)
    } else {
        let color = colored[0];
        if pool[color.slot()] > 0 {
            settle_colored(colored.drop_first(), pool.update(color.slot(), (pool[color.slot()] - 1) as u8))
        } else {
            let rest = settle_colored(colored.drop_first(), pool);
            (seq![color] + rest.0, rest.1)
        }
    }
}

/// Pays hybrid symbols from `pool`, front to back, preferring the first colour.
pub open spec fn settle_hybrid(hybrid: Seq<(Color, Color)>, pool: Seq<u8>) -> (Seq<(Color, Color)>, Seq<u8>)
    decreases hybrid.len(),
{
    if hybrid.len() == 0 {
        (hybrid, pool)
    } else {
        let symbol = hybrid[0];
        if pool[symbol.0.slot()] > 0 {
            settle_hybrid(hybrid.drop_first(), pool.update(symbol.0.slot(), (pool[symbol.0.slot()] - 1) as u8))
        } else if pool[symbol.1.slot()] > 0 {
            settle_hybrid(hybrid.drop_first(), pool.update(symbol.1.slot(), (pool[symbol.1.slot()] - 1) as u8))
        } else {
            let rest = settle_hybrid(hybrid.drop_first(), pool);
            (seq![symbol] + rest.0, rest.1)
        }
    }
}

/// The first slot at or after `from` holding mana, or 6 when there is none.
pub open spec fn first_positive(pool: Seq<u8>, from: int) -> int
    decreases 6 - from,
{
    if from >= 6 {
        6
    } else if pool[from] > 0 {
        from
    } else {
        first_positive(pool, from + 1)
    }
}

/// Pays generic mana one unit at a time from the lowest non-empty slot.
pub open spec fn settle_generic(generic: nat, pool: Seq<u8>) -> (nat, Seq<u8>)
    decreases generic,
{
    if generic == 0 {
        (generic, pool)
    } else {
        let slot = first_positive(pool, 0);
        if slot >= 6 {
            (generic, pool)
        } else {
            settle_generic((generic - 1) as nat, pool.update(slot, (pool[slot] - 1) as u8))
        }
    }
}

/// Everything `pool` can pay of `demand`, most constrained symbols first.
pub open spec fn settle(demand: DemandView, pool: Seq<u8>) -> (DemandView, Seq<u8>) {
    let colored = settle_colored(demand.0, pool);
    let hybrid = settle_hybrid(demand.1, colored.1);
    let generic = settle_generic(demand.2, hybrid.1);
    ((colored.0, hybrid.0, generic.0), generic.1)
}

/// Whether `pool` can contribute to the most constrained unpaid symbol.
pub open spec fn wanted_hit(demand: DemandView, pool: Seq<u8>) -> bool {
    if demand.0.len() > 0 {
        pool[demand.0[0].slot()] > 0
    } else if demand.1.len() > 0 {
        pool[demand.1[0].0.slot()] > 0 || pool[demand.1[0].1.slot()] > 0
    } else {
        exists|slot: int| 0 <= slot < 6 && #[trigger] pool[slot] > 0
    }
}

// ---------------------------------------------------------------------------
// Sources
// ---------------------------------------------------------------------------

/// Whether a permanent can pay a tap cost for mana this window.
pub open spec fn ready_source(permanent: Permanent) -> bool {
    !permanent.tapped && !permanent.summoning_sick && permanent.source is Some
}

/// Tapping priority: the least flexible source goes first, and creatures are
/// held back because tapping one removes a blocker.
pub open spec fn priority_of(permanent: Permanent) -> u8 {
    sat(sat(permanent.source->0.colors_view().len() as int) + if permanent.is_creature {
        8int
    } else {
        0int
    })
}

/// The ready sources among the first `n` permanents, in board order.
pub open spec fn ready_prefix(mine: Seq<Permanent>, n: int) -> Seq<Source>
    decreases n,
{
    if n <= 0 {
        Seq::empty()
    } else {
        let earlier = ready_prefix(mine, n - 1);
        let permanent = mine[n - 1];
        if ready_source(permanent) {
            earlier.push(
                Source { slot: (n - 1) as usize, object: permanent.object, priority: priority_of(permanent) },
            )
        } else {
            earlier
        }
    }
}

/// Whether `left` may stay before `right` in the tapping order.
pub open spec fn source_le(left: Source, right: Source) -> bool {
    left.priority < right.priority || (left.priority == right.priority && left.object.0
        <= right.object.0)
}

/// Inserts `source` into `sorted` after every entry that may precede it.
pub open spec fn insert_source(sorted: Seq<Source>, source: Source) -> Seq<Source>
    decreases sorted.len(),
{
    if sorted.len() == 0 {
        seq![source]
    } else if source_le(sorted.last(), source) {
        sorted.push(source)
    } else {
        insert_source(sorted.drop_last(), source).push(sorted.last())
    }
}

/// A stable sort of sources by `(priority, object)`.
pub open spec fn sort_sources(sources: Seq<Source>) -> Seq<Source>
    decreases sources.len(),
{
    if sources.len() == 0 {
        sources
    } else {
        insert_source(sort_sources(sources.drop_last()), sources.last())
    }
}

/// Every source that can be activated right now, in tapping order.
pub open spec fn available_spec(mine: Seq<Permanent>) -> Seq<Source> {
    sort_sources(ready_prefix(mine, mine.len() as int))
}

/// The capability of the permanent a source names.
pub open spec fn kind_of(mine: Seq<Permanent>, source: Source) -> SourceKind {
    mine[source.slot as int].source->0
}

/// Whether every source names a ready permanent of `mine`.
pub open spec fn sources_valid(mine: Seq<Permanent>, sources: Seq<Source>) -> bool {
    forall|i: int|
        0 <= i < sources.len() ==> {
            let source = #[trigger] sources[i];
            &&& (source.slot as int) < mine.len()
            &&& mine[source.slot as int].source is Some
            &&& mine[source.slot as int].object == source.object
        }
}

// ---------------------------------------------------------------------------
// The depth-first search
// ---------------------------------------------------------------------------

/// The most activations one plan will consider.
pub const MAX_TAPS: usize = 24;

/// The number of sources not yet used.
pub open spec fn unused(used: Seq<bool>) -> nat
    decreases used.len(),
{
    if used.len() == 0 {
        0
    } else {
        unused(used.drop_last()) + if used.last() {
            0nat
        } else {
            1nat
        }
    }
}

/// Marking an unused source as used removes it from the count.
pub proof fn lemma_unused_mark(used: Seq<bool>, i: int)
    requires
        0 <= i < used.len(),
        !used[i],
    ensures
        unused(used.update(i, true)) + 1 == unused(used),
    decreases used.len(),
{
    if i == used.len() - 1 {
        assert(used.update(i, true).drop_last() =~= used.drop_last());
    } else {
        lemma_unused_mark(used.drop_last(), i);
        assert(used.update(i, true).drop_last() =~= used.drop_last().update(i, true));
    }
}

/// The plan the search finds for `demand` from the unused sources, or `None`.
pub open spec fn search_spec(
    mine: Seq<Permanent>,
    sources: Seq<Source>,
    used: Seq<bool>,
    demand: DemandView,
    floating: Seq<u8>,
    depth: nat,
) -> Option<(Seq<TapView>, u8)>
    decreases unused(used), 1nat, 0nat, 0nat,
{
    if demand_empty(demand) {
        Some((Seq::empty(), sat(pool_total(floating))))
    } else if depth >= MAX_TAPS {
        None
    } else {
        scan_spec(mine, sources, used, demand, floating, depth, 0, 0)
    }
}

/// The search continued from option `j` of source `i`.
pub open spec fn scan_spec(
    mine: Seq<Permanent>,
    sources: Seq<Source>,
    used: Seq<bool>,
    demand: DemandView,
    floating: Seq<u8>,
    depth: nat,
    i: int,
    j: int,
) -> Option<(Seq<TapView>, u8)>
    decreases unused(used), 0nat, sources.len() - i, option_list(kind_of(mine, sources[i])).len() - j,
{
    if i < 0 || i >= sources.len() || used.len() != sources.len() {
        None
    } else if used[i] {
        scan_spec(mine, sources, used, demand, floating, depth, i + 1, 0)
    } else {
        let source = sources[i];
        let kind = kind_of(mine, source);
        let options = option_list(kind);
        if j < 0 || j >= options.len() {
            scan_spec(mine, sources, used, demand, floating, depth, i + 1, 0)
        } else {
            let (pool, color) = options[j];
            if !wanted_hit(demand, pool) {
                scan_spec(mine, sources, used, demand, floating, depth, i, j + 1)
            } else {
                let (next, leftover) = settle(demand, combine(floating, pool));
                proof {
                    lemma_unused_mark(used, i);
                }
                match search_spec(mine, sources, used.update(i, true), next, leftover, depth + 1) {
                    Some((taps, waste)) => Some((seq![tap_spec(kind, source.object, color)] + taps, waste)),
                    None => scan_spec(mine, sources, used, demand, floating, depth, i, j + 1),
                }
            }
        }
    }
}

/// The plan found for a cost whose hybrid symbols have been fixed: `fixed`
/// coloured symbols and `generic` generic ones, floating mana spent first.
pub open spec fn attempt_spec(board: Board, fixed: Seq<Color>, generic: nat) -> Option<(Seq<TapView>, u8)> {
    let (demand, leftover) = settle((fixed, Seq::empty(), generic), board.floating@);
    let sources = available_spec(board.mine@);
    search_spec(board.mine@, sources, Seq::new(sources.len(), |i: int| false), demand, leftover, 0)
}

/// The first plan found when each hybrid symbol in turn is tried as its first
/// colour, then as its second.
pub open spec fn branch_spec(
    board: Board,
    fixed: Seq<Color>,
    hybrid: Seq<(Color, Color)>,
    generic: nat,
) -> Option<(Seq<TapView>, u8)>
    decreases hybrid.len(),
{
    if hybrid.len() == 0 {
        attempt_spec(board, fixed, generic)
    } else {
        match branch_spec(board, fixed.push(hybrid[0].0), hybrid.drop_first(), generic) {
            Some(found) => Some(found),
            None => branch_spec(board, fixed.push(hybrid[0].1), hybrid.drop_first(), generic),
        }
    }
}

/// The plan the greedy search finds: floating mana settles what it can of
/// the whole cost, each hybrid symbol taking its first colour when floating
/// and else its second, and the search pays the rest.
pub open spec fn greedy_spec(board: Board, cost: ManaCost) -> Option<(Seq<TapView>, u8)> {
    let (demand, leftover) = settle(cost_demand(cost), board.floating@);
    let sources = available_spec(board.mine@);
    search_spec(board.mine@, sources, Seq::new(sources.len(), |i: int| false), demand, leftover, 0)
}

/// The plan `plan` returns for `cost` on `board`, or `None`: the greedy
/// search's plan, and when it finds none, the first plan found with each
/// hybrid symbol fixed to one of its colours.
pub open spec fn plan_spec(board: Board, cost: ManaCost) -> Option<(Seq<TapView>, u8)> {
    let demand = cost_demand(cost);
    match greedy_spec(board, cost) {
        Some(found) => Some(found),
        None => branch_spec(board, demand.0, demand.1, demand.2),
    }
}

// ---------------------------------------------------------------------------
// Executable pool arithmetic
// ---------------------------------------------------------------------------

/// Adds `amount` of `color` to `pool`, saturating.
fn add(pool: &mut [u8; 6], color: Color, amount: u8)
    ensures
        final(pool)@ == pool_add(old(pool)@, color.slot(), amount as int),
{
    let slot = color.index();
    pool[slot] = pool[slot].saturating_add(amount);
}

/// Total mana in a pool.
fn total(pool: [u8; 6]) -> (sum: u32)
    ensures
        sum == pool_total(pool@),
        sum <= 1530,
{
    let mut sum: u32 = 0;
    let mut slot: usize = 0;
    while slot < 6
        invariant
            slot <= 6,
            sum == pool_sum(pool@, slot as int),
            sum <= 255 * slot,
        decreases 6 - slot,
    {
        sum = sum + pool[slot] as u32;
        slot = slot + 1;
    }
    sum
}

/// A total clamped to a `u8`.
fn clamp_u8(value: u32) -> (clamped: u8)
    ensures
        clamped == sat(value as int),
{
    if value > 255 {
        255
    } else {
        value as u8
    }
}

/// Slot-wise saturating sum of two pools.
fn combine_pools(left: [u8; 6], right: [u8; 6]) -> (sum: [u8; 6])
    ensures
        sum@ =~= combine(left@, right@),
{
    let mut sum = left;
    let mut slot: usize = 0;
    while slot < 6
        invariant
            slot <= 6,
            forall|k: int| 0 <= k < slot ==> sum@[k] == sat(left@[k] + right@[k]),
            forall|k: int| slot <= k < 6 ==> sum@[k] == left@[k],
        decreases 6 - slot,
    {
        sum[slot] = sum[slot].saturating_add(right[slot]);
        slot = slot + 1;
    }
    sum
}

/// One mana of one colour.
fn unit(color: Color) -> (pool: [u8; 6])
    ensures
        pool@ =~= unit_pool(color),
{
    let mut pool = [0u8; 6];
    assert(pool@ =~= zero_pool());
    self::add(&mut pool, color, 1);
    pool
}

/// Every distinct way one source can be activated.
fn options(kind: &SourceKind) -> (produced: Vec<([u8; 6], Option<Color>)>)
    ensures
        option_views(produced@) =~= option_list(*kind),
{
    match kind {
        SourceKind::BasicTyped(colors) => unit_options(colors),
        SourceKind::BoundChoice { colors, .. } => unit_options(colors),
        SourceKind::BoundFixed { color, .. } => {
            let produced = vec![(unit(*color), Some(*color))];
            assert(option_views(produced@) =~= option_list(*kind));
            produced
        },
        SourceKind::BoundBundle { bundle, .. } => {
            let mut pool = [0u8; 6];
            assert(pool@ =~= zero_pool());
            let mut i: usize = 0;
            while i < bundle.len()
                invariant
                    i <= bundle@.len(),
                    pool@ =~= bundle_pool(bundle@.take(i as int)),
                decreases bundle@.len() - i,
            {
                assert(bundle@.take(i + 1).drop_last() =~= bundle@.take(i as int));
                self::add(&mut pool, bundle[i].0, bundle[i].1);
                i = i + 1;
            }
            assert(bundle@.take(bundle@.len() as int) =~= bundle@);
            let produced = vec![(pool, None)];
            assert(option_views(produced@) =~= option_list(*kind));
            produced
        },
    }
}

/// One single-colour option per listed colour.
fn unit_options(colors: &Vec<Color>) -> (produced: Vec<([u8; 6], Option<Color>)>)
    ensures
        option_views(produced@) =~= colors@.map_values(
            |color: Color| (unit_pool(color), Some(color)),
        ),
{
    let mut produced: Vec<([u8; 6], Option<Color>)> = Vec::new();
    let mut i: usize = 0;
    while i < colors.len()
        invariant
            i <= colors@.len(),
            option_views(produced@) =~= colors@.take(i as int).map_values(
                |color: Color| (unit_pool(color), Some(color)),
            ),
        decreases colors@.len() - i,
    {
        let ghost before = produced@;
        let pool = unit(colors[i]);
        produced.push((pool, Some(colors[i])));
        assert(option_views(produced@) =~= option_views(before).push((unit_pool(colors@[i as int]), Some(colors@[i as int]))));
        assert(colors@.take(i + 1).map_values(|color: Color| (unit_pool(color), Some(color)))
            =~= colors@.take(i as int).map_values(|color: Color| (unit_pool(color), Some(color))).push((unit_pool(colors@[i as int]), Some(colors@[i as int]))));
        i = i + 1;
    }
    assert(colors@.take(colors@.len() as int) =~= colors@);
    produced
}

/// Copies a bundle element by element.
fn copy_bundle(bundle: &Vec<(Color, u8)>) -> (out: Vec<(Color, u8)>)
    ensures
        out@ == bundle@,
{
    let mut out: Vec<(Color, u8)> = Vec::new();
    let mut i: usize = 0;
    while i < bundle.len()
        invariant
            i <= bundle@.len(),
            out@ == bundle@.take(i as int),
        decreases bundle@.len() - i,
    {
        out.push(bundle[i]);
        i = i + 1;
        assert(out@ =~= bundle@.take(i as int));
    }
    assert(out@ =~= bundle@);
    out
}

/// The activation to submit for one option of one source.
fn tap_for(kind: &SourceKind, object: ObjectId, color: Option<Color>) -> (tap: ManaTap)
    requires
        kind is BasicTyped ==> color is Some,
    ensures
        tap@ == tap_spec(*kind, object, color),
{
    match kind {
        SourceKind::BasicTyped(_) => ManaTap::Basic { land: object, color: color.unwrap() },
        SourceKind::BoundFixed { ability, .. } => ManaTap::Bound {
            source: object,
            ability: *ability,
            color: None,
        },
        SourceKind::BoundChoice { ability, .. } => ManaTap::Bound {
            source: object,
            ability: *ability,
            color,
        },
        SourceKind::BoundBundle { ability, bundle } => ManaTap::Bundle {
            source: object,
            ability: *ability,
            bundle: copy_bundle(bundle),
        },
    }
}


// ---------------------------------------------------------------------------
// Executable settlement
// ---------------------------------------------------------------------------

fn settle_colored_exec(colored: &Vec<Color>, pool: [u8; 6]) -> (settled: (Vec<Color>, [u8; 6]))
    ensures
        (settled.0@, settled.1@) == settle_colored(colored@, pool@),
{
    let mut kept: Vec<Color> = Vec::new();
    let mut current = pool;
    let mut i: usize = 0;
    assert(colored@.skip(0) =~= colored@);
    assert(kept@ + settle_colored(colored@, pool@).0 =~= settle_colored(colored@, pool@).0);
    while i < colored.len()
        invariant
            i <= colored@.len(),
            ({
                let rest = settle_colored(colored@.skip(i as int), current@);
                settle_colored(colored@, pool@) == (kept@ + rest.0, rest.1)
            }),
        decreases colored@.len() - i,
    {
        let color = colored[i];
        let slot = color.index();
        assert(colored@.skip(i as int).drop_first() =~= colored@.skip(i + 1));
        if current[slot] > 0 {
            current[slot] = current[slot] - 1;
        } else {
            let ghost rest = settle_colored(colored@.skip(i + 1), current@);
            assert(kept@ + (seq![color] + rest.0) =~= kept@.push(color) + rest.0);
            kept.push(color);
        }
        i = i + 1;
    }
    assert(kept@ + Seq::<Color>::empty() =~= kept@);
    (kept, current)
}

fn settle_hybrid_exec(hybrid: &Vec<(Color, Color)>, pool: [u8; 6]) -> (settled: (Vec<(Color, Color)>, [u8; 6]))
    ensures
        (settled.0@, settled.1@) == settle_hybrid(hybrid@, pool@),
{
    let mut kept: Vec<(Color, Color)> = Vec::new();
    let mut current = pool;
    let mut i: usize = 0;
    assert(hybrid@.skip(0) =~= hybrid@);
    assert(kept@ + settle_hybrid(hybrid@, pool@).0 =~= settle_hybrid(hybrid@, pool@).0);
    while i < hybrid.len()
        invariant
            i <= hybrid@.len(),
            ({
                let rest = settle_hybrid(hybrid@.skip(i as int), current@);
                settle_hybrid(hybrid@, pool@) == (kept@ + rest.0, rest.1)
            }),
        decreases hybrid@.len() - i,
    {
        let symbol = hybrid[i];
        let first = symbol.0.index();
        let second = symbol.1.index();
        assert(hybrid@.skip(i as int).drop_first() =~= hybrid@.skip(i + 1));
        if current[first] > 0 {
            current[first] = current[first] - 1;
        } else if current[second] > 0 {
            current[second] = current[second] - 1;
        } else {
            let ghost rest = settle_hybrid(hybrid@.skip(i + 1), current@);
            assert(kept@ + (seq![symbol] + rest.0) =~= kept@.push(symbol) + rest.0);
            kept.push(symbol);
        }
        i = i + 1;
    }
    assert(kept@ + Seq::<(Color, Color)>::empty() =~= kept@);
    (kept, current)
}

fn first_positive_exec(pool: &[u8; 6]) -> (slot: usize)
    ensures
        slot == first_positive(pool@, 0),
        slot <= 6,
{
    let mut slot: usize = 0;
    while slot < 6
        invariant
            slot <= 6,
            first_positive(pool@, 0) == first_positive(pool@, slot as int),
        decreases 6 - slot,
    {
        if pool[slot] > 0 {
            return slot;
        }
        slot = slot + 1;
    }
    6
}

fn settle_generic_exec(generic: u8, pool: [u8; 6]) -> (settled: (u8, [u8; 6]))
    ensures
        (settled.0 as nat, settled.1@) == settle_generic(generic as nat, pool@),
{
    let mut remaining = generic;
    let mut current = pool;
    let mut stuck = false;
    while remaining > 0 && !stuck
        invariant
            settle_generic(remaining as nat, current@) == settle_generic(generic as nat, pool@),
            stuck ==> remaining > 0 && first_positive(current@, 0) >= 6,
        decreases remaining, if stuck { 0int } else { 1int },
    {
        let slot = first_positive_exec(&current);
        if slot >= 6 {
            stuck = true;
        } else {
            assert(current@[slot as int] > 0) by {
                lemma_first_positive_holds(current@, 0);
            }
            current[slot] = current[slot] - 1;
            remaining = remaining - 1;
        }
    }
    (remaining, current)
}

pub proof fn lemma_first_positive_holds(pool: Seq<u8>, from: int)
    requires
        0 <= from,
        pool.len() == 6,
        first_positive(pool, from) < 6,
    ensures
        pool[first_positive(pool, from)] > 0,
        from <= first_positive(pool, from),
    decreases 6 - from,
{
    if from < 6 && pool[from] == 0 {
        lemma_first_positive_holds(pool, from + 1);
    }
}

impl Demand {
    /// The demand a printed cost places.
    fn from_cost(cost: &ManaCost) -> (demand: Demand)
        ensures
            demand@ == cost_demand(*cost),
    {
        let mut hybrid: Vec<(Color, Color)> = Vec::new();
        let mut i: usize = 0;
        while i < cost.hybrid.len()
            invariant
                i <= cost.hybrid@.len(),
                hybrid@ =~= cost.hybrid@.take(i as int).map_values(
                    |symbol: crate::planner::board::HybridManaSymbol| (symbol.first, symbol.second),
                ),
            decreases cost.hybrid@.len() - i,
        {
            hybrid.push((cost.hybrid[i].first, cost.hybrid[i].second));
            i = i + 1;
            assert(hybrid@ =~= cost.hybrid@.take(i as int).map_values(
                |symbol: crate::planner::board::HybridManaSymbol| (symbol.first, symbol.second),
            ));
        }
        assert(cost.hybrid@.take(cost.hybrid@.len() as int) =~= cost.hybrid@);
        Demand { colored: copy_colors(&cost.colored), hybrid, generic: cost.generic }
    }

    /// Whether nothing remains to pay.
    fn is_empty(&self) -> (empty: bool)
        ensures
            empty == demand_empty(self@),
    {
        self.colored.len() == 0 && self.hybrid.len() == 0 && self.generic == 0
    }

    /// Everything `pool` can pay of this demand, most constrained symbols
    /// first, with the leftover pool.
    fn settle(&self, pool: [u8; 6]) -> (settled: (Demand, [u8; 6]))
        ensures
            (settled.0@, settled.1@) == settle(self@, pool@),
    {
        let (colored, after_colored) = settle_colored_exec(&self.colored, pool);
        let (hybrid, after_hybrid) = settle_hybrid_exec(&self.hybrid, after_colored);
        let (generic, leftover) = settle_generic_exec(self.generic, after_hybrid);
        (Demand { colored, hybrid, generic }, leftover)
    }

    /// Whether `pool` can contribute to the most constrained unpaid symbol.
    fn wanted_by(&self, pool: &[u8; 6]) -> (hit: bool)
        ensures
            hit == wanted_hit(self@, pool@),
    {
        if self.colored.len() > 0 {
            pool[self.colored[0].index()] > 0
        } else if self.hybrid.len() > 0 {
            pool[self.hybrid[0].0.index()] > 0 || pool[self.hybrid[0].1.index()] > 0
        } else {
            let slot = first_positive_exec(pool);
            proof {
                if slot < 6 {
                    lemma_first_positive_holds(pool@, 0);
                } else {
                    lemma_first_positive_none(pool@, 0);
                }
            }
            slot < 6
        }
    }
}

pub proof fn lemma_first_positive_none(pool: Seq<u8>, from: int)
    requires
        0 <= from,
        pool.len() == 6,
        first_positive(pool, from) >= 6,
    ensures
        forall|slot: int| from <= slot < 6 ==> pool[slot] == 0,
    decreases 6 - from,
{
    if from < 6 {
        lemma_first_positive_none(pool, from + 1);
    }
}


// ---------------------------------------------------------------------------
// Executable source collection
// ---------------------------------------------------------------------------

/// Tapping priority of a ready permanent.
fn source_priority(permanent: &Permanent) -> (priority: u8)
    requires
        permanent.source is Some,
    ensures
        priority == priority_of(*permanent),
{
    let kind = permanent.source.as_ref().unwrap();
    let count = kind.colors().len();
    let flexibility: u8 = if count > 255 {
        255
    } else {
        count as u8
    };
    let creature_penalty: u8 = if permanent.is_creature {
        8
    } else {
        0
    };
    flexibility.saturating_add(creature_penalty)
}

/// Whether `left` may stay before `right` in the tapping order.
fn source_le_exec(left: &Source, right: &Source) -> (le: bool)
    ensures
        le == source_le(*left, *right),
{
    left.priority < right.priority || (left.priority == right.priority && left.object.0
        <= right.object.0)
}

/// Inserting after the last entry that may precede `source` is the same as
/// splicing it in at `position`.
proof fn lemma_insert_source_at(sorted: Seq<Source>, source: Source, position: int)
    requires
        0 <= position <= sorted.len(),
        forall|q: int| position <= q < sorted.len() ==> !source_le(#[trigger] sorted[q], source),
        position == 0 || source_le(sorted[position - 1], source),
    ensures
        insert_source(sorted, source) == sorted.take(position) + seq![source] + sorted.skip(position),
    decreases sorted.len(),
{
    if sorted.len() == position {
        assert(sorted.take(position) =~= sorted);
        assert(sorted.skip(position) =~= Seq::<Source>::empty());
        if sorted.len() == 0 {
            assert(seq![source] =~= Seq::<Source>::empty() + seq![source] + Seq::<Source>::empty());
        } else {
            assert(sorted.push(source) =~= sorted + seq![source] + Seq::<Source>::empty());
        }
    } else {
        let shorter = sorted.drop_last();
        assert(!source_le(sorted[sorted.len() - 1], source));
        lemma_insert_source_at(shorter, source, position);
        assert(shorter.take(position) =~= sorted.take(position));
        assert((shorter.take(position) + seq![source] + shorter.skip(position)).push(sorted.last())
            =~= sorted.take(position) + seq![source] + sorted.skip(position));
    }
}

/// Every source that can be activated right now, in tapping order.
fn available(board: &Board) -> (sources: Vec<Source>)
    ensures
        sources@ == available_spec(board.mine@),
        sources_valid(board.mine@, sources@),
{
    let mut ready: Vec<Source> = Vec::new();
    let mut i: usize = 0;
    while i < board.mine.len()
        invariant
            i <= board.mine@.len(),
            ready@ == ready_prefix(board.mine@, i as int),
            sources_valid(board.mine@, ready@),
        decreases board.mine@.len() - i,
    {
        let permanent = &board.mine[i];
        if !permanent.tapped && !permanent.summoning_sick && permanent.source.is_some() {
            let priority = source_priority(permanent);
            ready.push(Source { slot: i, object: permanent.object, priority });
        }
        i = i + 1;
    }
    let mut sorted: Vec<Source> = Vec::new();
    let mut k: usize = 0;
    while k < ready.len()
        invariant
            k <= ready@.len(),
            ready@ == ready_prefix(board.mine@, board.mine@.len() as int),
            sorted@ == sort_sources(ready@.take(k as int)),
            sources_valid(board.mine@, ready@),
            sources_valid(board.mine@, sorted@),
        decreases ready@.len() - k,
    {
        let source = ready[k];
        let mut position = sorted.len();
        while position > 0 && !source_le_exec(&sorted[position - 1], &source)
            invariant
                position <= sorted@.len(),
                forall|q: int| position <= q < sorted@.len() ==> !source_le(#[trigger] sorted@[q], source),
            decreases position,
        {
            position = position - 1;
        }
        proof {
            lemma_insert_source_at(sorted@, source, position as int);
            assert(ready@.take(k + 1).drop_last() =~= ready@.take(k as int));
        }
        sorted.insert(position, source);
        assert(sorted@ =~= insert_source(sort_sources(ready@.take(k as int)), source));
        k = k + 1;
        assert(sources_valid(board.mine@, sorted@));
    }
    assert(ready@.take(ready@.len() as int) =~= ready@);
    sorted
}


// ---------------------------------------------------------------------------
// Executable search and planning
// ---------------------------------------------------------------------------

/// Depth-first assignment of sources to unmet symbols.
///
/// Recursion is on the demand: it picks the most constrained unpaid symbol
/// and tries only sources that can contribute to it. On success the found
/// activations are appended to `taps`; on failure `taps` and `used` are left
/// as they were.
fn search(
    board: &Board,
    sources: &Vec<Source>,
    used: &mut Vec<bool>,
    demand: &Demand,
    floating: [u8; 6],
    taps: &mut Vec<ManaTap>,
) -> (found: Option<u8>)
    requires
        sources_valid(board.mine@, sources@),
        old(used)@.len() == sources@.len(),
    ensures
        final(used)@.len() == sources@.len(),
        match found {
            Some(waste) => {
                &&& final(taps)@.len() >= old(taps)@.len()
                &&& final(taps)@.take(old(taps)@.len() as int) == old(taps)@
                &&& search_spec(board.mine@, sources@, old(used)@, demand@, floating@, old(taps)@.len())
                    == Some((tap_views(final(taps)@.skip(old(taps)@.len() as int)), waste))
            },
            None => {
                &&& final(taps)@ == old(taps)@
                &&& final(used)@ == old(used)@
                &&& search_spec(board.mine@, sources@, old(used)@, demand@, floating@, old(taps)@.len()) is None
            },
        },
    decreases unused(old(used)@), 1nat, 0nat, 0nat,
{
    let ghost used0 = used@;
    let ghost taps0 = taps@;
    let ghost depth = taps@.len();
    if demand.is_empty() {
        let waste = clamp_u8(total(floating));
        assert(taps@.skip(depth as int) =~= Seq::<ManaTap>::empty());
        assert(tap_views(taps@.skip(depth as int)) =~= Seq::<TapView>::empty());
        assert(taps@.take(depth as int) =~= taps@);
        return Some(waste);
    }
    if taps.len() >= MAX_TAPS {
        return None;
    }
    let ghost target = scan_spec(board.mine@, sources@, used0, demand@, floating@, depth, 0, 0);
    let mut found: Option<u8> = None;
    let mut index: usize = 0;
    while index < sources.len() && found.is_none()
        invariant
            index <= sources@.len(),
            used@.len() == sources@.len(),
            taps0.len() == depth,
            depth < MAX_TAPS,
            used0.len() == sources@.len(),
            used0 == old(used)@,
            sources_valid(board.mine@, sources@),
            !demand_empty(demand@),
            target == scan_spec(board.mine@, sources@, used0, demand@, floating@, depth, 0, 0),
            found is None ==> {
                &&& used@ == used0
                &&& taps@ == taps0
                &&& scan_spec(board.mine@, sources@, used0, demand@, floating@, depth, index as int, 0) == target
            },
            found matches Some(waste) ==> {
                &&& taps@.len() >= depth
                &&& taps@.take(depth as int) == taps0
                &&& target == Some((tap_views(taps@.skip(depth as int)), waste))
            },
        decreases sources@.len() - index,
    {
        if used[index] {
            index = index + 1;
        } else {
            let source = sources[index];
            let kind = board.mine[source.slot].source.as_ref().unwrap();
            let produced = options(kind);
            let mut k: usize = 0;
            while k < produced.len() && found.is_none()
                invariant
                    index < sources@.len(),
                    k <= produced@.len(),
                    used@.len() == sources@.len(),
                    taps0.len() == depth,
                    depth < MAX_TAPS,
                    used0.len() == sources@.len(),
                    used0 == old(used)@,
                    !used0[index as int],
                    source == sources@[index as int],
                    *kind == kind_of(board.mine@, source),
                    option_views(produced@) =~= option_list(*kind),
                    sources_valid(board.mine@, sources@),
                    !demand_empty(demand@),
                    found is None ==> {
                        &&& used@ == used0
                        &&& taps@ == taps0
                        &&& scan_spec(board.mine@, sources@, used0, demand@, floating@, depth, index as int, k as int) == target
                    },
                    found matches Some(waste) ==> {
                        &&& taps@.len() >= depth
                        &&& taps@.take(depth as int) == taps0
                        &&& target == Some((tap_views(taps@.skip(depth as int)), waste))
                    },
                decreases produced@.len() - k,
            {
                let (pool, color) = produced[k];
                assert(option_views(produced@)[k as int] == (pool@, color));
                if demand.wanted_by(&pool) {
                    let combined = combine_pools(floating, pool);
                    let (next, leftover) = demand.settle(combined);
                    proof {
                        lemma_unused_mark(used0, index as int);
                        if kind is BasicTyped {
                            assert(color is Some);
                        }
                    }
                    used.set(index, true);
                    assert(used@ =~= used0.update(index as int, true));
                    let tap = tap_for(kind, source.object, color);
                    taps.push(tap);
                    assert(taps@ =~= taps0.push(tap));
                    let result = search(board, sources, used, &next, leftover, taps);
                    match result {
                        Some(waste) => {
                            proof {
                                let inner = taps@.skip((depth + 1) as int);
                                assert(taps@.take((depth + 1) as int) =~= taps0.push(tap));
                                assert(taps@.take((depth + 1) as int)[depth as int] == tap);
                                assert(taps@[depth as int] == tap);
                                assert(taps@.skip(depth as int) =~= seq![tap] + inner);
                                assert(tap_views(taps@.skip(depth as int)) =~= seq![tap@] + tap_views(inner));
                                assert(taps@.take(depth as int) =~= taps0);
                                assert(settle(demand@, combine(floating@, pool@)) == (next@, leftover@));
                                assert(tap@ == tap_spec(kind_of(board.mine@, source), source.object, color));
                                assert(scan_spec(board.mine@, sources@, used0, demand@, floating@, depth, index as int, k as int)
                                    == Some((seq![tap@] + tap_views(inner), waste)));
                            }
                            found = Some(waste);
                        },
                        None => {
                            taps.pop();
                            assert(taps@ =~= taps0);
                            used.set(index, false);
                            assert(used@ =~= used0);
                        },
                    }
                }
                k = k + 1;
            }
            index = index + 1;
        }
    }
    found
}

/// Searches for a payment of `fixed` coloured and `generic` generic symbols.
fn attempt(board: &Board, sources: &Vec<Source>, fixed: &Vec<Color>, generic: u8) -> (payment: Option<ManaPlan>)
    requires
        sources@ == available_spec(board.mine@),
        sources_valid(board.mine@, sources@),
    ensures
        match payment {
            Some(found) => attempt_spec(*board, fixed@, generic as nat) == Some((tap_views(found.taps@), found.waste)),
            None => attempt_spec(*board, fixed@, generic as nat) is None,
        },
{
    let demand = Demand { colored: copy_colors(fixed), hybrid: Vec::new(), generic };
    let (remaining, leftover) = demand.settle(board.floating);
    let mut used: Vec<bool> = Vec::new();
    let mut i: usize = 0;
    while i < sources.len()
        invariant
            i <= sources@.len(),
            used@ =~= Seq::new(i as nat, |q: int| false),
        decreases sources@.len() - i,
    {
        used.push(false);
        i = i + 1;
    }
    let mut taps: Vec<ManaTap> = Vec::new();
    let found = search(board, sources, &mut used, &remaining, leftover, &mut taps);
    match found {
        Some(waste) => {
            assert(taps@.skip(0) =~= taps@);
            Some(ManaPlan { taps, waste })
        },
        None => None,
    }
}

/// The greedy search: floating mana settles what it can of the whole demand,
/// and the search pays the rest.
fn greedy(board: &Board, sources: &Vec<Source>, demand: &Demand) -> (payment: Option<ManaPlan>)
    requires
        sources@ == available_spec(board.mine@),
        sources_valid(board.mine@, sources@),
    ensures
        match payment {
            Some(found) => search_spec(
                board.mine@,
                sources@,
                Seq::new(sources@.len(), |i: int| false),
                settle(demand@, board.floating@).0,
                settle(demand@, board.floating@).1,
                0,
            ) == Some((tap_views(found.taps@), found.waste)),
            None => search_spec(
                board.mine@,
                sources@,
                Seq::new(sources@.len(), |i: int| false),
                settle(demand@, board.floating@).0,
                settle(demand@, board.floating@).1,
                0,
            ) is None,
        },
{
    let (remaining, leftover) = demand.settle(board.floating);
    let mut used: Vec<bool> = Vec::new();
    let mut i: usize = 0;
    while i < sources.len()
        invariant
            i <= sources@.len(),
            used@ =~= Seq::new(i as nat, |q: int| false),
        decreases sources@.len() - i,
    {
        used.push(false);
        i = i + 1;
    }
    let mut taps: Vec<ManaTap> = Vec::new();
    let found = search(board, sources, &mut used, &remaining, leftover, &mut taps);
    match found {
        Some(waste) => {
            assert(taps@.skip(0) =~= taps@);
            Some(ManaPlan { taps, waste })
        },
        None => None,
    }
}

/// Tries hybrid symbol `k` onwards as its first colour, then as its second.
fn branch(
    board: &Board,
    sources: &Vec<Source>,
    fixed: &Vec<Color>,
    hybrid: &Vec<(Color, Color)>,
    k: usize,
    generic: u8,
) -> (payment: Option<ManaPlan>)
    requires
        sources@ == available_spec(board.mine@),
        sources_valid(board.mine@, sources@),
        k <= hybrid@.len(),
    ensures
        match payment {
            Some(found) => branch_spec(*board, fixed@, hybrid@.skip(k as int), generic as nat) == Some(
                (tap_views(found.taps@), found.waste),
            ),
            None => branch_spec(*board, fixed@, hybrid@.skip(k as int), generic as nat) is None,
        },
    decreases hybrid@.len() - k,
{
    if k == hybrid.len() {
        assert(hybrid@.skip(k as int) =~= Seq::<(Color, Color)>::empty());
        return attempt(board, sources, fixed, generic);
    }
    assert(hybrid@.skip(k as int).drop_first() =~= hybrid@.skip(k + 1));
    let mut first = copy_colors(fixed);
    first.push(hybrid[k].0);
    let found = branch(board, sources, &first, hybrid, k + 1, generic);
    if found.is_some() {
        return found;
    }
    let mut second = copy_colors(fixed);
    second.push(hybrid[k].1);
    branch(board, sources, &second, hybrid, k + 1, generic)
}

/// Plans a payment for `cost` from the board's floating mana and untapped
/// sources.
///
/// Floating mana is spent first, each hybrid symbol taking either of its
/// colours, and the remainder is searched depth-first over the ready sources
/// in tapping order. Only when that search finds nothing is each hybrid
/// symbol fixed to its first colour and then its second, and the search run
/// again for each choice. `None` is a real answer: no combination of at most
/// [`MAX_TAPS`] ready sources pays the cost, and the caller must not attempt
/// the cast.
pub fn plan(board: &Board, cost: &ManaCost) -> (payment: Option<ManaPlan>)
    ensures
        match payment {
            Some(found) => plan_spec(*board, *cost) == Some((tap_views(found.taps@), found.waste)),
            None => plan_spec(*board, *cost) is None,
        },
        payment is Some ==> exists|slots: Seq<int>, choice: Seq<Color>|
            plan_covers(*board, *cost, slots, choice) && (within_pool_range(*board) ==> plan_wastes(
                *board,
                *cost,
                slots,
            )),
        cost.hybrid@.len() <= 1 && payable(cost_demand(*cost), widen(board.floating@)) ==> (payment matches Some(
            found,
        ) && found.taps@.len() == 0),
        payment is None && within_pool_range(*board) ==> forall|slots: Seq<int>, opts: Seq<int>, choice: Seq<Color>|
            selection(board.mine@, slots, opts) ==> !#[trigger] pays_with(
                cost_demand(*cost),
                plus(widen(board.floating@), selection_yield(board.mine@, slots, opts)),
                choice,
            ),
{
    let sources = available(board);
    let demand = Demand::from_cost(cost);
    let payment = match greedy(board, &sources, &demand) {
        Some(found) => Some(found),
        None => {
            assert(demand.hybrid@.skip(0) =~= demand.hybrid@);
            branch(board, &sources, &demand.colored, &demand.hybrid, 0, demand.generic)
        },
    };
    proof {
        if cost.hybrid@.len() <= 1 && payable(cost_demand(*cost), widen(board.floating@)) {
            let choice = choose|choice: Seq<Color>| pays_with(cost_demand(*cost), widen(board.floating@), choice);
            floating_mana_alone_pays(*board, *cost, choice);
        }
        if payment is Some {
            plan_pays_its_cost(*board, *cost);
        } else if within_pool_range(*board) {
            assert forall|slots: Seq<int>, opts: Seq<int>, choice: Seq<Color>|
                selection(board.mine@, slots, opts) implies !#[trigger] pays_with(
                cost_demand(*cost),
                plus(widen(board.floating@), selection_yield(board.mine@, slots, opts)),
                choice,
            ) by {
                if pays_with(
                    cost_demand(*cost),
                    plus(widen(board.floating@), selection_yield(board.mine@, slots, opts)),
                    choice,
                ) {
                    plan_finds_every_payment(*board, *cost, slots, opts, choice);
                }
            }
        }
    }
    payment
}

/// Whether `cost` is payable right now.
pub fn can_pay(board: &Board, cost: &ManaCost) -> (payable: bool)
    ensures
        payable == plan_spec(*board, *cost) is Some,
{
    plan(board, cost).is_some()
}


/// Mana the ready sources among the first `n` permanents yield in one
/// activation each.
pub open spec fn ready_quantity(mine: Seq<Permanent>, n: int) -> int
    decreases n,
{
    if n <= 0 {
        0
    } else {
        ready_quantity(mine, n - 1) + if ready_source(mine[n - 1]) {
            mine[n - 1].source->0.quantity_view()
        } else {
            0
        }
    }
}

/// Total mana this board could produce if every ready source were tapped once,
/// plus what is already floating.
pub open spec fn potential_spec(board: Board) -> int {
    ready_quantity(board.mine@, board.mine@.len() as int) + pool_total(board.floating@)
}

/// Total mana this board could produce if every source were tapped.
///
/// Used for curve decisions, not for legality.
pub fn potential(board: &Board) -> (amount: u32)
    requires
        board.mine@.len() < 16_000_000,
    ensures
        amount == potential_spec(*board),
{
    let mut sum: u32 = 0;
    let mut i: usize = 0;
    while i < board.mine.len()
        invariant
            i <= board.mine@.len() < 16_000_000,
            sum == ready_quantity(board.mine@, i as int),
            sum <= 255 * i,
        decreases board.mine@.len() - i,
    {
        let permanent = &board.mine[i];
        if !permanent.tapped && !permanent.summoning_sick && permanent.source.is_some() {
            let amount = permanent.source.as_ref().unwrap().quantity();
            sum = sum + amount as u32;
        }
        i = i + 1;
    }
    sum + total(board.floating)
}

} // verus!
