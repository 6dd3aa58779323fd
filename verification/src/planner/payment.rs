//! What it means for a mana plan to pay a cost, and the proof that every plan
//! the planner returns does.

use vstd::prelude::*;
use crate::planner::board::{Board, Color, ManaCost, Permanent, SourceKind};
use crate::planner::completeness::{
    demand_size, headroom, lemma_colored_accounting, lemma_fits_step, lemma_generic_accounting,
    lemma_hybrid_accounting, lemma_pool_total, lemma_settle_consumes, pool_fits, within_pool_range,
};
use crate::planner::mana::{
    DemandView, Source, TapView, attempt_spec, available_spec, branch_spec, bundle_pool, combine,
    cost_demand, demand_empty, first_positive, greedy_spec, insert_source, kind_of, lemma_unused_mark, option_list, plan_spec,
    ready_prefix, ready_source, sat, scan_spec, search_spec, settle, settle_colored, settle_generic, settle_hybrid,
    sort_sources, sources_valid, tap_spec, unit_pool, unused, wanted_hit,
};

verus! {

/// The six slots of a pool as integers.
pub open spec fn widen(pool: Seq<u8>) -> Seq<int> {
    Seq::new(6, |slot: int| pool[slot] as int)
}

/// Slot-wise sum of two integer pools.
pub open spec fn plus(left: Seq<int>, right: Seq<int>) -> Seq<int> {
    Seq::new(6, |slot: int| left[slot] + right[slot])
}

/// The empty integer pool.
pub open spec fn zeros() -> Seq<int> {
    Seq::new(6, |slot: int| 0int)
}

/// Total mana in an integer pool.
pub open spec fn isum(pool: Seq<int>) -> int {
    pool[0] + pool[1] + pool[2] + pool[3] + pool[4] + pool[5]
}

/// How many symbols of `symbols` need mana of pool slot `slot`.
pub open spec fn count_slot(symbols: Seq<Color>, slot: int) -> int
    decreases symbols.len(),
{
    if symbols.len() == 0 {
        0
    } else {
        (if symbols[0].slot() == slot {
            1int
        } else {
            0int
        }) + count_slot(symbols.drop_first(), slot)
    }
}

/// `pool` pays `demand` when each hybrid symbol is paid with the colour in
/// `choice`: every colour covers its fixed and chosen symbols, and the pool
/// as a whole covers every symbol including the generic ones.
pub open spec fn pays_with(demand: DemandView, pool: Seq<int>, choice: Seq<Color>) -> bool {
    &&& pool.len() == 6
    &&& choice.len() == demand.1.len()
    &&& forall|k: int|
        0 <= k < choice.len() ==> (#[trigger] choice[k] == demand.1[k].0 || choice[k]
            == demand.1[k].1)
    &&& forall|slot: int|
        0 <= slot < 6 ==> count_slot(demand.0, slot) + count_slot(choice, slot) <= #[trigger] pool[slot]
    &&& demand.0.len() + demand.1.len() + demand.2 <= isum(pool)
}

/// Whether some choice of hybrid colours lets `pool` pay `demand`.
pub open spec fn payable(demand: DemandView, pool: Seq<int>) -> bool {
    exists|choice: Seq<Color>| pays_with(demand, pool, choice)
}

pub proof fn lemma_count_concat(left: Seq<Color>, right: Seq<Color>, slot: int)
    ensures
        count_slot(left + right, slot) == count_slot(left, slot) + count_slot(right, slot),
    decreases left.len(),
{
    if left.len() == 0 {
        assert(left + right =~= right);
    } else {
        assert((left + right).drop_first() =~= left.drop_first() + right);
        lemma_count_concat(left.drop_first(), right, slot);
    }
}

pub proof fn lemma_count_single(color: Color, slot: int)
    ensures
        count_slot(seq![color], slot) == if color.slot() == slot {
            1int
        } else {
            0int
        },
{
    assert(seq![color].drop_first() =~= Seq::<Color>::empty());
    assert(count_slot(Seq::<Color>::empty(), slot) == 0);
}

pub proof fn lemma_count_nonneg(symbols: Seq<Color>, slot: int)
    ensures
        count_slot(symbols, slot) >= 0,
    decreases symbols.len(),
{
    if symbols.len() > 0 {
        lemma_count_nonneg(symbols.drop_first(), slot);
    }
}

/// More mana in every slot never stops a payment.
proof fn lemma_pays_monotone(demand: DemandView, small: Seq<int>, large: Seq<int>, choice: Seq<Color>)
    requires
        pays_with(demand, small, choice),
        large.len() == 6,
        forall|slot: int| 0 <= slot < 6 ==> small[slot] <= #[trigger] large[slot],
    ensures
        pays_with(demand, large, choice),
{
    assert(small[0] <= large[0] && small[1] <= large[1] && small[2] <= large[2]);
    assert(small[3] <= large[3] && small[4] <= large[4] && small[5] <= large[5]);
}

/// One unit taken from `slot` and given back as a paid symbol of that colour.
proof fn lemma_decrement_widen(pool: Seq<u8>, extra: Seq<int>, slot: int)
    requires
        pool.len() == 6,
        extra.len() == 6,
        0 <= slot < 6,
        pool[slot] > 0,
    ensures
        ({
            let smaller = plus(widen(pool.update(slot, (pool[slot] - 1) as u8)), extra);
            let larger = plus(widen(pool), extra);
            &&& forall|s: int| 0 <= s < 6 && s != slot ==> #[trigger] larger[s] == smaller[s]
            &&& larger[slot] == smaller[slot] + 1
            &&& isum(larger) == isum(smaller) + 1
        }),
{
}

/// Greedy colour settlement only removes symbols it has mana for.
proof fn lemma_colored_sound(
    colored: Seq<Color>,
    pool: Seq<u8>,
    extra: Seq<int>,
    prefix: Seq<Color>,
    hybrid: Seq<(Color, Color)>,
    generic: nat,
    choice: Seq<Color>,
)
    requires
        pool.len() == 6,
        extra.len() == 6,
        ({
            let settled = settle_colored(colored, pool);
            pays_with((prefix + settled.0, hybrid, generic), plus(widen(settled.1), extra), choice)
        }),
    ensures
        pays_with((prefix + colored, hybrid, generic), plus(widen(pool), extra), choice),
    decreases colored.len(),
{
    if colored.len() == 0 {
    } else {
        let color = colored[0];
        let rest = colored.drop_first();
        assert(colored =~= seq![color] + rest);
        if pool[color.slot()] > 0 {
            let smaller = pool.update(color.slot(), (pool[color.slot()] - 1) as u8);
            lemma_colored_sound(rest, smaller, extra, prefix, hybrid, generic, choice);
            lemma_decrement_widen(pool, extra, color.slot());
            assert forall|slot: int| 0 <= slot < 6 implies count_slot(prefix + colored, slot)
                + count_slot(choice, slot) <= #[trigger] plus(widen(pool), extra)[slot] by {
                lemma_count_concat(prefix, colored, slot);
                lemma_count_concat(prefix, rest, slot);
                lemma_count_concat(seq![color], rest, slot);
                lemma_count_single(color, slot);
            }
        } else {
            let settled = settle_colored(rest, pool);
            assert(prefix + (seq![color] + settled.0) =~= prefix.push(color) + settled.0);
            lemma_colored_sound(rest, pool, extra, prefix.push(color), hybrid, generic, choice);
            assert(prefix.push(color) + rest =~= prefix + colored);
        }
    }
}

/// Greedy hybrid settlement only removes symbols it has mana for; the colour
/// it paid with is recorded in the returned choice.
proof fn lemma_hybrid_sound(
    colored: Seq<Color>,
    hybrid: Seq<(Color, Color)>,
    pool: Seq<u8>,
    extra: Seq<int>,
    prefix: Seq<(Color, Color)>,
    generic: nat,
    choice: Seq<Color>,
) -> (full: Seq<Color>)
    requires
        pool.len() == 6,
        extra.len() == 6,
        ({
            let settled = settle_hybrid(hybrid, pool);
            pays_with((colored, prefix + settled.0, generic), plus(widen(settled.1), extra), choice)
        }),
    ensures
        pays_with((colored, prefix + hybrid, generic), plus(widen(pool), extra), full),
        full.take(prefix.len() as int) == choice.take(prefix.len() as int),
    decreases hybrid.len(),
{
    if hybrid.len() == 0 {
        choice
    } else {
        let symbol = hybrid[0];
        let rest = hybrid.drop_first();
        assert(hybrid =~= seq![symbol] + rest);
        if pool[symbol.0.slot()] > 0 || pool[symbol.1.slot()] > 0 {
            let paid = if pool[symbol.0.slot()] > 0 {
                symbol.0
            } else {
                symbol.1
            };
            let smaller = pool.update(paid.slot(), (pool[paid.slot()] - 1) as u8);
            let inner = lemma_hybrid_sound(colored, rest, smaller, extra, prefix, generic, choice);
            let n = prefix.len() as int;
            let full = inner.take(n) + seq![paid] + inner.skip(n);
            lemma_decrement_widen(pool, extra, paid.slot());
            assert(prefix + hybrid =~= prefix + seq![symbol] + rest);
            assert forall|k: int| 0 <= k < full.len() implies (#[trigger] full[k] == (prefix
                + hybrid)[k].0 || full[k] == (prefix + hybrid)[k].1) by {
                if k < n {
                    assert(full[k] == inner[k]);
                    assert((prefix + rest)[k] == (prefix + hybrid)[k]);
                } else if k == n {
                } else {
                    assert(full[k] == inner[k - 1]);
                    assert((prefix + rest)[k - 1] == (prefix + hybrid)[k]);
                }
            }
            assert forall|slot: int| 0 <= slot < 6 implies count_slot(colored, slot) + count_slot(
                full,
                slot,
            ) <= #[trigger] plus(widen(pool), extra)[slot] by {
                assert(inner =~= inner.take(n) + inner.skip(n));
                lemma_count_concat(inner.take(n), inner.skip(n), slot);
                lemma_count_concat(inner.take(n) + seq![paid], inner.skip(n), slot);
                lemma_count_concat(inner.take(n), seq![paid], slot);
                lemma_count_single(paid, slot);
            }
            assert(full.take(n) =~= inner.take(n));
            full
        } else {
            let settled = settle_hybrid(rest, pool);
            assert(prefix + (seq![symbol] + settled.0) =~= prefix.push(symbol) + settled.0);
            let full = lemma_hybrid_sound(colored, rest, pool, extra, prefix.push(symbol), generic, choice);
            assert(prefix.push(symbol) + rest =~= prefix + hybrid);
            assert(full.take(prefix.len() as int) =~= full.take((prefix.len() + 1) as int).take(prefix.len() as int));
            assert(choice.take(prefix.len() as int) =~= choice.take((prefix.len() + 1) as int).take(prefix.len() as int));
            full
        }
    }
}

/// Greedy generic settlement only removes symbols it has mana for.
proof fn lemma_generic_sound(
    colored: Seq<Color>,
    hybrid: Seq<(Color, Color)>,
    generic: nat,
    pool: Seq<u8>,
    extra: Seq<int>,
    choice: Seq<Color>,
)
    requires
        pool.len() == 6,
        extra.len() == 6,
        ({
            let settled = settle_generic(generic, pool);
            pays_with((colored, hybrid, settled.0), plus(widen(settled.1), extra), choice)
        }),
    ensures
        pays_with((colored, hybrid, generic), plus(widen(pool), extra), choice),
    decreases generic,
{
    if generic > 0 {
        let slot = first_positive(pool, 0);
        if slot < 6 {
            lemma_first_positive_in(pool, 0);
            let smaller = pool.update(slot, (pool[slot] - 1) as u8);
            lemma_generic_sound(colored, hybrid, (generic - 1) as nat, smaller, extra, choice);
            lemma_decrement_widen(pool, extra, slot);
        }
    }
}

proof fn lemma_first_positive_in(pool: Seq<u8>, from: int)
    requires
        0 <= from,
        pool.len() == 6,
        first_positive(pool, from) < 6,
    ensures
        from <= first_positive(pool, from),
        pool[first_positive(pool, from)] > 0,
    decreases 6 - from,
{
    if from < 6 && pool[from] == 0 {
        lemma_first_positive_in(pool, from + 1);
    }
}

proof fn lemma_settle_colored_len(colored: Seq<Color>, pool: Seq<u8>)
    requires
        pool.len() == 6,
    ensures
        settle_colored(colored, pool).1.len() == pool.len(),
    decreases colored.len(),
{
    if colored.len() > 0 {
        let color = colored[0];
        if pool[color.slot()] > 0 {
            lemma_settle_colored_len(colored.drop_first(), pool.update(color.slot(), (pool[color.slot()] - 1) as u8));
        } else {
            lemma_settle_colored_len(colored.drop_first(), pool);
        }
    }
}

proof fn lemma_settle_hybrid_len(hybrid: Seq<(Color, Color)>, pool: Seq<u8>)
    requires
        pool.len() == 6,
    ensures
        settle_hybrid(hybrid, pool).1.len() == pool.len(),
    decreases hybrid.len(),
{
    if hybrid.len() > 0 {
        let symbol = hybrid[0];
        if pool[symbol.0.slot()] > 0 {
            lemma_settle_hybrid_len(hybrid.drop_first(), pool.update(symbol.0.slot(), (pool[symbol.0.slot()] - 1) as u8));
        } else if pool[symbol.1.slot()] > 0 {
            lemma_settle_hybrid_len(hybrid.drop_first(), pool.update(symbol.1.slot(), (pool[symbol.1.slot()] - 1) as u8));
        } else {
            lemma_settle_hybrid_len(hybrid.drop_first(), pool);
        }
    }
}

pub proof fn lemma_settle_generic_len(generic: nat, pool: Seq<u8>)
    requires
        pool.len() == 6,
    ensures
        settle_generic(generic, pool).1.len() == pool.len(),
    decreases generic,
{
    if generic > 0 {
        let slot = first_positive(pool, 0);
        if slot < 6 {
            lemma_first_positive_in(pool, 0);
            lemma_settle_generic_len((generic - 1) as nat, pool.update(slot, (pool[slot] - 1) as u8));
        }
    }
}

/// Settlement keeps a pool's six slots.
pub proof fn lemma_settle_len(demand: DemandView, pool: Seq<u8>)
    requires
        pool.len() == 6,
    ensures
        settle(demand, pool).1.len() == pool.len(),
{
    let colored = settle_colored(demand.0, pool);
    lemma_settle_colored_len(demand.0, pool);
    let hybrid = settle_hybrid(demand.1, colored.1);
    lemma_settle_hybrid_len(demand.1, colored.1);
    lemma_settle_generic_len(demand.2, hybrid.1);
}

/// Whatever a settlement leaves unpaid, paying it from the leftover pool
/// pays the whole demand from the starting pool.
pub proof fn lemma_settle_sound(demand: DemandView, pool: Seq<u8>, extra: Seq<int>, choice: Seq<Color>) -> (full:
    Seq<Color>)
    requires
        pool.len() == 6,
        extra.len() == 6,
        ({
            let settled = settle(demand, pool);
            pays_with(settled.0, plus(widen(settled.1), extra), choice)
        }),
    ensures
        pays_with(demand, plus(widen(pool), extra), full),
{
    let colored = settle_colored(demand.0, pool);
    lemma_settle_colored_len(demand.0, pool);
    let hybrid = settle_hybrid(demand.1, colored.1);
    lemma_settle_hybrid_len(demand.1, colored.1);
    lemma_generic_sound(colored.0, hybrid.0, demand.2, hybrid.1, extra, choice);
    assert(Seq::<(Color, Color)>::empty() + hybrid.0 =~= hybrid.0);
    let full = lemma_hybrid_sound(colored.0, demand.1, colored.1, extra, Seq::empty(), demand.2, choice);
    assert(Seq::<(Color, Color)>::empty() + demand.1 =~= demand.1);
    assert(Seq::<Color>::empty() + colored.0 =~= colored.0);
    lemma_colored_sound(demand.0, pool, extra, Seq::empty(), demand.1, demand.2, full);
    assert(Seq::<Color>::empty() + demand.0 =~= demand.0);
    full
}


/// The mana one activation adds to the pool, given its source's capability.
pub open spec fn yield_of(kind: SourceKind, tap: TapView) -> Seq<int> {
    match tap {
        TapView::Basic { color, .. } => widen(unit_pool(color)),
        TapView::Bound { color, .. } => match color {
            Some(chosen) => widen(unit_pool(chosen)),
            None => match kind {
                SourceKind::BoundFixed { color, .. } => widen(unit_pool(color)),
                _ => zeros(),
            },
        },
        TapView::Bundle { bundle, .. } => widen(bundle_pool(bundle)),
    }
}

/// The mana a sequence of activations adds, where activation `k` taps the
/// permanent in slot `slots[k]` of `mine`.
pub open spec fn yield_total(mine: Seq<Permanent>, slots: Seq<int>, taps: Seq<TapView>) -> Seq<int>
    decreases taps.len(),
{
    if taps.len() == 0 || slots.len() == 0 {
        zeros()
    } else {
        plus(
            yield_of(mine[slots[0]].source->0, taps[0]),
            yield_total(mine, slots.drop_first(), taps.drop_first()),
        )
    }
}

proof fn lemma_unit_pool_len(color: Color)
    ensures
        unit_pool(color).len() == 6,
{
}

proof fn lemma_bundle_pool_len(bundle: Seq<(Color, u8)>)
    ensures
        bundle_pool(bundle).len() == 6,
    decreases bundle.len(),
{
    if bundle.len() > 0 {
        lemma_bundle_pool_len(bundle.drop_last());
    }
}

/// Every option's pool has six slots and is what the matching activation yields.
pub proof fn lemma_option_yield(kind: SourceKind, j: int, object: crate::planner::board::ObjectId)
    requires
        0 <= j < option_list(kind).len(),
    ensures
        option_list(kind)[j].0.len() == 6,
        yield_of(kind, tap_spec(kind, object, option_list(kind)[j].1)) == widen(option_list(kind)[j].0),
        kind is BasicTyped ==> option_list(kind)[j].1 is Some,
{
    match kind {
        SourceKind::BasicTyped(colors) => {
            lemma_unit_pool_len(colors@[j]);
        },
        SourceKind::BoundChoice { colors, .. } => {
            lemma_unit_pool_len(colors@[j]);
        },
        SourceKind::BoundFixed { color, .. } => {
            lemma_unit_pool_len(color);
        },
        SourceKind::BoundBundle { bundle, .. } => {
            lemma_bundle_pool_len(bundle@);
        },
    }
}

/// The sources chosen by a successful search, as positions in `sources`.
pub open spec fn chosen_slots(sources: Seq<Source>, picks: Seq<int>) -> Seq<int> {
    picks.map_values(|pick: int| sources[pick].slot as int)
}

/// What a successful search guarantees: the activations tap distinct unused
/// sources, and the floating pool plus what they yield pays the demand.
pub open spec fn search_covers(
    mine: Seq<Permanent>,
    sources: Seq<Source>,
    used: Seq<bool>,
    demand: DemandView,
    floating: Seq<u8>,
    taps: Seq<TapView>,
    picks: Seq<int>,
    choice: Seq<Color>,
) -> bool {
    &&& picks.len() == taps.len()
    &&& forall|k: int|
        0 <= k < picks.len() ==> 0 <= #[trigger] picks[k] < sources.len() && !used[picks[k]]
    &&& forall|k: int, m: int| 0 <= k < m < picks.len() ==> picks[k] != picks[m]
    &&& forall|k: int| 0 <= k < picks.len() ==> (#[trigger] taps[k]).object() == sources[picks[k]].object
    &&& pays_with(demand, plus(widen(floating), yield_total(mine, chosen_slots(sources, picks), taps)), choice)
}

pub proof fn lemma_yield_total_len(mine: Seq<Permanent>, slots: Seq<int>, taps: Seq<TapView>)
    ensures
        yield_total(mine, slots, taps).len() == 6,
    decreases taps.len(),
{
}

/// One step of the search, while the pools fit, spends one unit of the
/// combined pool per symbol settled, and the pools still fit after it.
proof fn lemma_waste_step(
    mine: Seq<Permanent>,
    sources: Seq<Source>,
    used: Seq<bool>,
    demand: DemandView,
    floating: Seq<u8>,
    i: int,
    j: int,
)
    requires
        used.len() == sources.len(),
        floating.len() == 6,
        pool_fits(mine, sources, used, floating),
        0 <= i < sources.len(),
        !used[i],
        0 <= j < option_list(kind_of(mine, sources[i])).len(),
    ensures
        ({
            let pool = option_list(kind_of(mine, sources[i]))[j].0;
            let combined = combine(floating, pool);
            let (next, leftover) = settle(demand, combined);
            &&& pool_fits(mine, sources, used.update(i, true), leftover)
            &&& isum(widen(leftover)) == isum(widen(floating)) + isum(widen(pool)) - (demand_size(demand)
                - demand_size(next))
        }),
{
    let pool = option_list(kind_of(mine, sources[i]))[j].0;
    lemma_option_yield(kind_of(mine, sources[i]), j, sources[i].object);
    let combined = combine(floating, pool);
    lemma_fits_step(mine, sources, used, demand, floating, i, j);
    assert(isum(widen(combined)) == isum(widen(floating)) + isum(widen(pool)));
    lemma_settle_consumes(demand, combined);
}

/// A successful search is sound.
pub proof fn lemma_search_sound(
    mine: Seq<Permanent>,
    sources: Seq<Source>,
    used: Seq<bool>,
    demand: DemandView,
    floating: Seq<u8>,
    depth: nat,
) -> (witness: (Seq<int>, Seq<Color>))
    requires
        sources_valid(mine, sources),
        used.len() == sources.len(),
        floating.len() == 6,
        search_spec(mine, sources, used, demand, floating, depth) is Some,
    ensures
        search_covers(
            mine,
            sources,
            used,
            demand,
            floating,
            search_spec(mine, sources, used, demand, floating, depth).unwrap().0,
            witness.0,
            witness.1,
        ),
        pool_fits(mine, sources, used, floating) ==> search_spec(
            mine,
            sources,
            used,
            demand,
            floating,
            depth,
        ).unwrap().1 == sat(
            isum(widen(floating)) + isum(
                yield_total(
                    mine,
                    chosen_slots(sources, witness.0),
                    search_spec(mine, sources, used, demand, floating, depth).unwrap().0,
                ),
            ) - demand_size(demand),
        ),
    decreases unused(used), 1nat, 0nat, 0nat,
{
    if demand_empty(demand) {
        let picks = Seq::<int>::empty();
        let choice = Seq::<Color>::empty();
        let taps = search_spec(mine, sources, used, demand, floating, depth).unwrap().0;
        assert(taps =~= Seq::<TapView>::empty());
        assert(chosen_slots(sources, picks) =~= Seq::<int>::empty());
        let pool = plus(widen(floating), yield_total(mine, chosen_slots(sources, picks), taps));
        assert forall|slot: int| 0 <= slot < 6 implies count_slot(demand.0, slot) + count_slot(choice, slot)
            <= #[trigger] pool[slot] by {
        }
        lemma_pool_total(floating);
        assert(isum(zeros()) == 0);
        (picks, choice)
    } else {
        lemma_scan_sound(mine, sources, used, demand, floating, depth, 0, 0)
    }
}

/// A successful scan step is sound.
pub proof fn lemma_scan_sound(
    mine: Seq<Permanent>,
    sources: Seq<Source>,
    used: Seq<bool>,
    demand: DemandView,
    floating: Seq<u8>,
    depth: nat,
    i: int,
    j: int,
) -> (witness: (Seq<int>, Seq<Color>))
    requires
        sources_valid(mine, sources),
        used.len() == sources.len(),
        floating.len() == 6,
        scan_spec(mine, sources, used, demand, floating, depth, i, j) is Some,
    ensures
        search_covers(
            mine,
            sources,
            used,
            demand,
            floating,
            scan_spec(mine, sources, used, demand, floating, depth, i, j).unwrap().0,
            witness.0,
            witness.1,
        ),
        pool_fits(mine, sources, used, floating) ==> scan_spec(
            mine,
            sources,
            used,
            demand,
            floating,
            depth,
            i,
            j,
        ).unwrap().1 == sat(
            isum(widen(floating)) + isum(
                yield_total(
                    mine,
                    chosen_slots(sources, witness.0),
                    scan_spec(mine, sources, used, demand, floating, depth, i, j).unwrap().0,
                ),
            ) - demand_size(demand),
        ),
    decreases unused(used), 0nat, sources.len() - i, option_list(kind_of(mine, sources[i])).len() - j,
{
    if used[i] {
        lemma_scan_sound(mine, sources, used, demand, floating, depth, i + 1, 0)
    } else {
        let source = sources[i];
        let kind = kind_of(mine, source);
        let options = option_list(kind);
        if j < 0 || j >= options.len() {
            lemma_scan_sound(mine, sources, used, demand, floating, depth, i + 1, 0)
        } else {
            let (pool, color) = options[j];
            if !wanted_hit(demand, pool) {
                lemma_scan_sound(mine, sources, used, demand, floating, depth, i, j + 1)
            } else {
                lemma_option_yield(kind, j, source.object);
                let combined = combine(floating, pool);
                let (next, leftover) = settle(demand, combined);
                lemma_unused_mark(used, i);
                let marked = used.update(i, true);
                match search_spec(mine, sources, marked, next, leftover, depth + 1) {
                    Some((inner_taps, waste)) => {
                        crate::planner::payment::lemma_settle_len(demand, combined);
                        let (inner_picks, inner_choice) = lemma_search_sound(mine, sources, marked, next, leftover, depth + 1);
                        let tap = tap_spec(kind, source.object, color);
                        let taps = seq![tap] + inner_taps;
                        let picks = seq![i] + inner_picks;
                        assert(taps == scan_spec(mine, sources, used, demand, floating, depth, i, j).unwrap().0);
                        let rest_yield = yield_total(mine, chosen_slots(sources, inner_picks), inner_taps);
                        lemma_yield_total_len(mine, chosen_slots(sources, inner_picks), inner_taps);
                        let choice = lemma_settle_sound(demand, combined, rest_yield, inner_choice);
                        assert(taps.drop_first() =~= inner_taps);
                        assert(chosen_slots(sources, picks).drop_first() =~= chosen_slots(sources, inner_picks));
                        assert(chosen_slots(sources, picks)[0] == source.slot as int);
                        let total = plus(widen(floating), yield_total(mine, chosen_slots(sources, picks), taps));
                        assert(yield_of(mine[source.slot as int].source->0, tap) == widen(pool));
                        assert forall|slot: int| 0 <= slot < 6 implies plus(widen(combined), rest_yield)[slot]
                            <= #[trigger] total[slot] by {
                        }
                        lemma_pays_monotone(demand, plus(widen(combined), rest_yield), total, choice);
                        assert forall|k: int, m: int| 0 <= k < m < picks.len() implies picks[k] != picks[m] by {
                            if k > 0 {
                                assert(picks[k] == inner_picks[k - 1]);
                            }
                            assert(picks[m] == inner_picks[m - 1]);
                        }
                        assert forall|k: int| 0 <= k < picks.len() implies 0 <= #[trigger] picks[k] < sources.len()
                            && !used[picks[k]] by {
                            if k > 0 {
                                assert(picks[k] == inner_picks[k - 1]);
                            }
                        }
                        assert forall|k: int| 0 <= k < picks.len() implies (#[trigger] taps[k]).object()
                            == sources[picks[k]].object by {
                            if k > 0 {
                                assert(picks[k] == inner_picks[k - 1]);
                                assert(taps[k] == inner_taps[k - 1]);
                            }
                        }
                        if pool_fits(mine, sources, used, floating) {
                            lemma_waste_step(mine, sources, used, demand, floating, i, j);
                            assert(yield_total(mine, chosen_slots(sources, picks), taps) =~= plus(
                                widen(pool),
                                rest_yield,
                            ));
                        }
                        (picks, choice)
                    },
                    None => lemma_scan_sound(mine, sources, used, demand, floating, depth, i, j + 1),
                }
            }
        }
    }
}


/// Every source names a ready permanent of `mine`, and no two share a slot.
pub open spec fn sources_sound(mine: Seq<Permanent>, sources: Seq<Source>) -> bool {
    &&& sources_valid(mine, sources)
    &&& forall|k: int| 0 <= k < sources.len() ==> ready_source(mine[(#[trigger] sources[k]).slot as int])
    &&& forall|k: int, m: int| 0 <= k < m < sources.len() ==> sources[k].slot != sources[m].slot
}

proof fn lemma_ready_prefix(mine: Seq<Permanent>, n: int)
    requires
        0 <= n <= mine.len() <= usize::MAX,
    ensures
        sources_sound(mine, ready_prefix(mine, n)),
        forall|k: int| 0 <= k < ready_prefix(mine, n).len() ==> (#[trigger] ready_prefix(mine, n)[k]).slot < n,
    decreases n,
{
    if n > 0 {
        lemma_ready_prefix(mine, n - 1);
        let earlier = ready_prefix(mine, n - 1);
        let current = ready_prefix(mine, n);
        if ready_source(mine[n - 1]) {
            assert forall|k: int| 0 <= k < current.len() implies {
                let source = #[trigger] current[k];
                &&& (source.slot as int) < mine.len()
                &&& mine[source.slot as int].source is Some
                &&& mine[source.slot as int].object == source.object
            } by {
                if k < earlier.len() {
                    assert(current[k] == earlier[k]);
                }
            }
            assert forall|k: int| 0 <= k < current.len() implies ready_source(
                mine[(#[trigger] current[k]).slot as int],
            ) by {
                if k < earlier.len() {
                    assert(current[k] == earlier[k]);
                }
            }
            assert forall|k: int, m: int| 0 <= k < m < current.len() implies current[k].slot
                != current[m].slot by {
                assert(current[k] == earlier[k]);
                if m < earlier.len() {
                    assert(current[m] == earlier[m]);
                }
            }
        }
    }
}

proof fn lemma_insert_members(sorted: Seq<Source>, source: Source)
    ensures
        insert_source(sorted, source).len() == sorted.len() + 1,
        forall|k: int| 0 <= k < insert_source(sorted, source).len() ==> {
            let entry = #[trigger] insert_source(sorted, source)[k];
            entry == source || sorted.contains(entry)
        },
    decreases sorted.len(),
{
    if sorted.len() > 0 && !crate::planner::mana::source_le(sorted.last(), source) {
        lemma_insert_members(sorted.drop_last(), source);
        let inner = insert_source(sorted.drop_last(), source);
        assert forall|k: int| 0 <= k < insert_source(sorted, source).len() implies {
            let entry = #[trigger] insert_source(sorted, source)[k];
            entry == source || sorted.contains(entry)
        } by {
            if k < inner.len() {
                let entry = inner[k];
                if entry != source {
                    let q = choose|q: int| 0 <= q < sorted.drop_last().len() && sorted.drop_last()[q] == entry;
                    assert(sorted[q] == entry);
                }
            } else {
                assert(sorted[sorted.len() - 1] == sorted.last());
            }
        }
    }
}

proof fn lemma_sort_members(sources: Seq<Source>)
    ensures
        sort_sources(sources).len() == sources.len(),
        forall|k: int| 0 <= k < sort_sources(sources).len() ==> sources.contains(#[trigger] sort_sources(sources)[k]),
    decreases sources.len(),
{
    if sources.len() > 0 {
        let shorter = sources.drop_last();
        lemma_sort_members(shorter);
        lemma_insert_members(sort_sources(shorter), sources.last());
        assert forall|k: int| 0 <= k < sort_sources(sources).len() implies sources.contains(
            #[trigger] sort_sources(sources)[k],
        ) by {
            let entry = sort_sources(sources)[k];
            if entry == sources.last() {
                assert(sources[sources.len() - 1] == entry);
            } else {
                let q = choose|q: int| 0 <= q < sort_sources(shorter).len() && sort_sources(shorter)[q] == entry;
                assert(shorter.contains(sort_sources(shorter)[q]));
                let r = choose|r: int| 0 <= r < shorter.len() && shorter[r] == entry;
                assert(sources[r] == entry);
            }
        }
    }
}

proof fn lemma_insert_distinct(sorted: Seq<Source>, source: Source)
    requires
        forall|k: int, m: int| 0 <= k < m < sorted.len() ==> sorted[k].slot != sorted[m].slot,
        forall|k: int| 0 <= k < sorted.len() ==> (#[trigger] sorted[k]).slot != source.slot,
    ensures
        forall|k: int, m: int|
            0 <= k < m < insert_source(sorted, source).len() ==> insert_source(sorted, source)[k].slot
                != insert_source(sorted, source)[m].slot,
    decreases sorted.len(),
{
    if sorted.len() > 0 && !crate::planner::mana::source_le(sorted.last(), source) {
        let shorter = sorted.drop_last();
        lemma_insert_distinct(shorter, source);
        lemma_insert_members(shorter, source);
        let inner = insert_source(shorter, source);
        let last = sorted.last();
        assert forall|k: int| 0 <= k < inner.len() implies (#[trigger] inner[k]).slot != last.slot by {
            let entry = inner[k];
            if entry != source {
                let q = choose|q: int| 0 <= q < shorter.len() && shorter[q] == entry;
                assert(sorted[q] == entry);
            } else {
                assert(sorted[sorted.len() - 1] == last);
            }
        }
    }
}

proof fn lemma_sort_distinct(sources: Seq<Source>)
    requires
        forall|k: int, m: int| 0 <= k < m < sources.len() ==> sources[k].slot != sources[m].slot,
    ensures
        forall|k: int, m: int|
            0 <= k < m < sort_sources(sources).len() ==> sort_sources(sources)[k].slot
                != sort_sources(sources)[m].slot,
    decreases sources.len(),
{
    if sources.len() > 0 {
        let shorter = sources.drop_last();
        lemma_sort_distinct(shorter);
        lemma_sort_members(shorter);
        assert forall|k: int| 0 <= k < sort_sources(shorter).len() implies (#[trigger] sort_sources(
            shorter,
        )[k]).slot != sources.last().slot by {
            let entry = sort_sources(shorter)[k];
            assert(shorter.contains(entry));
            let r = choose|r: int| 0 <= r < shorter.len() && shorter[r] == entry;
            assert(sources[r] == entry);
        }
        lemma_insert_distinct(sort_sources(shorter), sources.last());
    }
}

/// The available sources are sound: each names a distinct ready permanent.
pub proof fn lemma_available_sound(mine: Seq<Permanent>)
    requires
        mine.len() <= usize::MAX,
    ensures
        sources_sound(mine, available_spec(mine)),
{
    let ready = ready_prefix(mine, mine.len() as int);
    lemma_ready_prefix(mine, mine.len() as int);
    lemma_sort_members(ready);
    lemma_sort_distinct(ready);
    let sorted = available_spec(mine);
    assert forall|k: int| 0 <= k < sorted.len() implies {
        let source = #[trigger] sorted[k];
        &&& (source.slot as int) < mine.len()
        &&& mine[source.slot as int].source is Some
        &&& mine[source.slot as int].object == source.object
        &&& ready_source(mine[source.slot as int])
    } by {
        let r = choose|r: int| 0 <= r < ready.len() && ready[r] == sorted[k];
        assert(ready[r] == sorted[k]);
    }
}

/// What a plan guarantees: activation `k` taps the ready permanent in slot
/// `slots[k]`, no permanent is tapped twice, and the floating mana plus what
/// the activations yield pays the cost with hybrid colours `choice`.
pub open spec fn plan_covers(board: Board, cost: ManaCost, slots: Seq<int>, choice: Seq<Color>) -> bool {
    let mine = board.mine@;
    let taps = plan_spec(board, cost).unwrap().0;
    &&& slots.len() == taps.len()
    &&& forall|k: int|
        0 <= k < slots.len() ==> {
            &&& 0 <= #[trigger] slots[k] < mine.len()
            &&& ready_source(mine[slots[k]])
            &&& mine[slots[k]].object == taps[k].object()
        }
    &&& forall|k: int, m: int| 0 <= k < m < slots.len() ==> slots[k] != slots[m]
    &&& pays_with(cost_demand(cost), plus(widen(board.floating@), yield_total(mine, slots, taps)), choice)
}

/// What a plan's waste is: the floating mana plus what the activations yield,
/// less one unit per symbol of the cost, saturated at `u8::MAX`.
pub open spec fn plan_wastes(board: Board, cost: ManaCost, slots: Seq<int>) -> bool {
    let found = plan_spec(board, cost).unwrap();
    found.1 == sat(
        isum(widen(board.floating@)) + isum(yield_total(board.mine@, slots, found.0)) - demand_size(cost_demand(cost)),
    )
}

/// A successful branch fixed every hybrid symbol to one of its colours.
proof fn lemma_branch_choice(board: Board, fixed: Seq<Color>, hybrid: Seq<(Color, Color)>, generic: nat) -> (choice:
    Seq<Color>)
    requires
        branch_spec(board, fixed, hybrid, generic) is Some,
    ensures
        choice.len() == hybrid.len(),
        forall|k: int| 0 <= k < choice.len() ==> (#[trigger] choice[k] == hybrid[k].0 || choice[k] == hybrid[k].1),
        attempt_spec(board, fixed + choice, generic) == branch_spec(board, fixed, hybrid, generic),
    decreases hybrid.len(),
{
    if hybrid.len() == 0 {
        assert(fixed + Seq::<Color>::empty() =~= fixed);
        Seq::empty()
    } else {
        let rest = hybrid.drop_first();
        let paid = if branch_spec(board, fixed.push(hybrid[0].0), rest, generic) is Some {
            hybrid[0].0
        } else {
            hybrid[0].1
        };
        let inner = lemma_branch_choice(board, fixed.push(paid), rest, generic);
        let choice = seq![paid] + inner;
        assert(fixed.push(paid) + inner =~= fixed + choice);
        assert forall|k: int| 0 <= k < choice.len() implies (#[trigger] choice[k] == hybrid[k].0 || choice[k]
            == hybrid[k].1) by {
            if k > 0 {
                assert(choice[k] == inner[k - 1]);
                assert(rest[k - 1] == hybrid[k]);
            }
        }
        choice
    }
}

/// Fixing the hybrid symbols' colours turns a payment of the fixed demand into
/// a payment of the cost with those colours as its hybrid choice.
proof fn lemma_fixed_pays(cost: ManaCost, choice: Seq<Color>, pool: Seq<int>, none: Seq<Color>)
    requires
        choice.len() == cost_demand(cost).1.len(),
        forall|k: int|
            0 <= k < choice.len() ==> (#[trigger] choice[k] == cost_demand(cost).1[k].0 || choice[k]
                == cost_demand(cost).1[k].1),
        pays_with((cost_demand(cost).0 + choice, Seq::empty(), cost_demand(cost).2), pool, none),
    ensures
        pays_with(cost_demand(cost), pool, choice),
{
    let demand = cost_demand(cost);
    assert forall|slot: int| 0 <= slot < 6 implies count_slot(demand.0, slot) + count_slot(choice, slot)
        <= #[trigger] pool[slot] by {
        lemma_count_concat(demand.0, choice, slot);
        lemma_count_nonneg(none, slot);
        assert(none.len() == 0);
        assert(none =~= Seq::<Color>::empty());
    }
}

/// A search over the available sources, started from what settling `start`
/// against the floating pool left, pays all of `start`: it taps distinct
/// ready permanents, and while no pool slot can reach the `u8` ceiling its
/// waste is exactly the surplus over `start`.
proof fn lemma_settled_search(board: Board, start: DemandView) -> (witness: (Seq<int>, Seq<Color>))
    requires
        ({
            let sources = available_spec(board.mine@);
            let (demand, leftover) = settle(start, board.floating@);
            search_spec(board.mine@, sources, Seq::new(sources.len(), |i: int| false), demand, leftover, 0) is Some
        }),
    ensures
        ({
            let mine = board.mine@;
            let sources = available_spec(mine);
            let (demand, leftover) = settle(start, board.floating@);
            let found = search_spec(mine, sources, Seq::new(sources.len(), |i: int| false), demand, leftover, 0).unwrap();
            let slots = witness.0;
            &&& slots.len() == found.0.len()
            &&& forall|k: int|
                0 <= k < slots.len() ==> {
                    &&& 0 <= #[trigger] slots[k] < mine.len()
                    &&& ready_source(mine[slots[k]])
                    &&& mine[slots[k]].object == found.0[k].object()
                }
            &&& forall|k: int, m: int| 0 <= k < m < slots.len() ==> slots[k] != slots[m]
            &&& pays_with(start, plus(widen(board.floating@), yield_total(mine, slots, found.0)), witness.1)
            &&& within_pool_range(board) ==> found.1 == sat(
                isum(widen(board.floating@)) + isum(yield_total(mine, slots, found.0)) - demand_size(start),
            )
        }),
{
    let mine = board.mine@;
    assert(mine.len() == board.mine.len());
    let floating = board.floating@;
    let (demand, leftover) = settle(start, floating);
    lemma_settle_len(start, floating);
    let sources = available_spec(mine);
    let used = Seq::new(sources.len(), |i: int| false);
    lemma_available_sound(mine);
    let (picks, inner_choice) = lemma_search_sound(mine, sources, used, demand, leftover, 0);
    let taps = search_spec(mine, sources, used, demand, leftover, 0).unwrap().0;
    let slots = chosen_slots(sources, picks);
    let rest_yield = yield_total(mine, slots, taps);
    lemma_yield_total_len(mine, slots, taps);
    let choice = lemma_settle_sound(start, floating, rest_yield, inner_choice);
    assert forall|k: int, m: int| 0 <= k < m < slots.len() implies slots[k] != slots[m] by {
        assert(picks[k] != picks[m]);
    }
    assert forall|k: int| 0 <= k < slots.len() implies {
        &&& 0 <= #[trigger] slots[k] < mine.len()
        &&& ready_source(mine[slots[k]])
        &&& mine[slots[k]].object == taps[k].object()
    } by {
        assert(0 <= picks[k] < sources.len());
        assert(sources_valid(mine, sources));
        let source = sources[picks[k]];
        assert(ready_source(mine[source.slot as int]));
    }
    if within_pool_range(board) {
        lemma_settle_consumes(start, floating);
        assert forall|s: int| 0 <= s < 6 implies #[trigger] leftover[s] + headroom(
            mine,
            sources,
            used,
            s,
            sources.len() as int,
        ) <= 255 by {
            assert(leftover[s] <= floating[s]);
            assert(floating[s] + headroom(mine, sources, used, s, sources.len() as int) <= 255);
        }
        assert(pool_fits(mine, sources, used, leftover));
    }
    (slots, choice)
}

/// Every plan pays its cost: it taps only ready sources of mine, none twice,
/// and the floating mana plus what those activations produce covers every
/// symbol of the cost, hybrid symbols included. While no pool slot can reach
/// the `u8` ceiling, the plan's waste is exactly how much that mana exceeds
/// the cost.
pub proof fn plan_pays_its_cost(board: Board, cost: ManaCost)
    requires
        plan_spec(board, cost) is Some,
    ensures
        exists|slots: Seq<int>, choice: Seq<Color>|
            plan_covers(board, cost, slots, choice) && (within_pool_range(board) ==> plan_wastes(
                board,
                cost,
                slots,
            )),
{
    let full_demand = cost_demand(cost);
    if greedy_spec(board, cost) is Some {
        let (slots, choice) = lemma_settled_search(board, full_demand);
        assert(plan_covers(board, cost, slots, choice));
        assert(within_pool_range(board) ==> plan_wastes(board, cost, slots));
    } else {
        let hybrid_choice = lemma_branch_choice(board, full_demand.0, full_demand.1, full_demand.2);
        let fixed_demand: DemandView = (full_demand.0 + hybrid_choice, Seq::empty(), full_demand.2);
        let (slots, none) = lemma_settled_search(board, fixed_demand);
        let taps = plan_spec(board, cost).unwrap().0;
        lemma_fixed_pays(cost, hybrid_choice, plus(widen(board.floating@), yield_total(board.mine@, slots, taps)), none);
        assert(plan_covers(board, cost, slots, hybrid_choice));
        assert(demand_size(fixed_demand) == demand_size(full_demand));
        assert(within_pool_range(board) ==> plan_wastes(board, cost, slots));
    }
}

/// When the floating mana alone pays a cost with at most one hybrid symbol,
/// the plan spends it and taps nothing.
pub proof fn floating_mana_alone_pays(board: Board, cost: ManaCost, choice: Seq<Color>)
    requires
        cost.hybrid@.len() <= 1,
        pays_with(cost_demand(cost), widen(board.floating@), choice),
    ensures
        plan_spec(board, cost) is Some,
        plan_spec(board, cost).unwrap().0.len() == 0,
{
    let demand = cost_demand(cost);
    let floating = board.floating@;
    let (kept, left) = settle_colored(demand.0, floating);
    lemma_colored_accounting(demand.0, floating);
    if kept.len() > 0 {
        // The first unpaid colour would need more than the pool holds.
        let x = kept[0].slot();
        lemma_count_nonneg(kept.drop_first(), x);
        lemma_count_nonneg(choice, x);
        assert(left[x] == 0);
        assert(count_slot(demand.0, x) + count_slot(choice, x) <= widen(floating)[x]);
    }
    let (still, rest) = settle_hybrid(demand.1, left);
    lemma_hybrid_accounting(demand.1, left);
    if demand.1.len() == 1 {
        let c = choice[0].slot();
        assert(choice.drop_first() =~= Seq::<Color>::empty());
        assert(count_slot(Seq::<Color>::empty(), c) == 0);
        assert(count_slot(choice, c) == 1);
        assert(count_slot(demand.0, c) + count_slot(choice, c) <= widen(floating)[c]);
        assert(count_slot(kept, c) == 0);
        assert(left[c] >= 1);
        assert(demand.1.drop_first() =~= Seq::<(Color, Color)>::empty());
        reveal_with_fuel(settle_hybrid, 2);
        assert(still.len() == 0);
    }
    let (unpaid, last) = settle_generic(demand.2, rest);
    lemma_generic_accounting(demand.2, rest);
    if unpaid > 0 {
        assert(last[0] == 0 && last[1] == 0 && last[2] == 0);
        assert(last[3] == 0 && last[4] == 0 && last[5] == 0);
        assert(isum(widen(last)) == 0);
    }
    assert(demand_empty(settle(demand, floating).0));
}

} // verus!
