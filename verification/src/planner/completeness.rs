//! The planner never misses a payment: when some set of at most
//! [`MAX_TAPS`] ready sources, each activated one way, pays a cost, `plan`
//! returns a plan, as long as no pool slot can pass the `u8` ceiling.
//!
//! The argument runs over three facts. Settling a demand against a pool keeps
//! it payable from whatever else is added later; after settling, the most
//! constrained unpaid symbol can only be paid by a source the search tries;
//! and the search tries every unused source for it, backtracking on failure.

use vstd::prelude::*;
use crate::planner::board::{Board, Color, ManaCost, Permanent};
use crate::planner::mana::{
    DemandView, MAX_TAPS, Source, attempt_spec, available_spec, branch_spec, combine, cost_demand,
    demand_empty, first_positive, greedy_spec, insert_source, kind_of, lemma_first_positive_holds,
    lemma_first_positive_none, lemma_unused_mark, option_list, plan_spec, ready_prefix, ready_source,
    scan_spec, search_spec, settle, settle_colored, settle_generic, settle_hybrid, sort_sources,
    sources_valid, unused, wanted_hit,
};
use crate::planner::payment::{
    count_slot, isum, lemma_available_sound, lemma_count_concat, lemma_count_nonneg, pays_with, plus,
    widen, zeros,
};

verus! {

// ---------------------------------------------------------------------------
// Settling keeps a demand payable
// ---------------------------------------------------------------------------

proof fn lemma_isum_dec(pool: Seq<u8>, slot: int)
    requires
        pool.len() == 6,
        0 <= slot < 6,
        pool[slot] > 0,
    ensures
        isum(widen(pool.update(slot, (pool[slot] - 1) as u8))) == isum(widen(pool)) - 1,
        forall|s: int| 0 <= s < 6 ==> #[trigger] pool.update(slot, (pool[slot] - 1) as u8)[s] <= pool[s],
{
    let smaller = pool.update(slot, (pool[slot] - 1) as u8);
    assert(widen(smaller)[0] + widen(smaller)[1] + widen(smaller)[2] + widen(smaller)[3] + widen(smaller)[4]
        + widen(smaller)[5] == widen(pool)[0] + widen(pool)[1] + widen(pool)[2] + widen(pool)[3]
        + widen(pool)[4] + widen(pool)[5] - 1);
}

proof fn lemma_count_front(color: Color, rest: Seq<Color>, slot: int)
    ensures
        count_slot(seq![color] + rest, slot) == (if color.slot() == slot {
            1int
        } else {
            0int
        }) + count_slot(rest, slot),
{
    assert((seq![color] + rest).drop_first() =~= rest);
}

/// What greedy colour settlement consumed, slot by slot and in total, and
/// that no unpaid symbol's colour is left in the pool.
pub proof fn lemma_colored_accounting(colored: Seq<Color>, pool: Seq<u8>)
    requires
        pool.len() == 6,
    ensures
        ({
            let (kept, left) = settle_colored(colored, pool);
            &&& left.len() == 6
            &&& forall|s: int| 0 <= s < 6 ==> #[trigger] left[s] <= pool[s]
            &&& forall|s: int|
                0 <= s < 6 ==> #[trigger] count_slot(colored, s) == count_slot(kept, s) + pool[s] - left[s]
            &&& colored.len() == kept.len() + isum(widen(pool)) - isum(widen(left))
            &&& forall|k: int| 0 <= k < kept.len() ==> left[(#[trigger] kept[k]).slot()] == 0
        }),
    decreases colored.len(),
{
    if colored.len() > 0 {
        let color = colored[0];
        let rest = colored.drop_first();
        assert(colored =~= seq![color] + rest);
        if pool[color.slot()] > 0 {
            let smaller = pool.update(color.slot(), (pool[color.slot()] - 1) as u8);
            lemma_colored_accounting(rest, smaller);
            lemma_isum_dec(pool, color.slot());
            assert forall|s: int| 0 <= s < 6 implies #[trigger] count_slot(colored, s) == count_slot(
                settle_colored(colored, pool).0,
                s,
            ) + pool[s] - settle_colored(colored, pool).1[s] by {
                lemma_count_front(color, rest, s);
            }
        } else {
            lemma_colored_accounting(rest, pool);
            let (kept, left) = settle_colored(rest, pool);
            let all = seq![color] + kept;
            assert forall|s: int| 0 <= s < 6 implies #[trigger] count_slot(colored, s) == count_slot(all, s)
                + pool[s] - left[s] by {
                lemma_count_front(color, rest, s);
                lemma_count_front(color, kept, s);
            }
            assert forall|k: int| 0 <= k < all.len() implies left[(#[trigger] all[k]).slot()] == 0 by {
                if k > 0 {
                    assert(all[k] == kept[k - 1]);
                }
            }
        }
    }
}

/// What greedy hybrid settlement consumed: one unit of the pool for each
/// symbol it paid, taken only from the pool.
pub proof fn lemma_hybrid_accounting(hybrid: Seq<(Color, Color)>, pool: Seq<u8>)
    requires
        pool.len() == 6,
    ensures
        ({
            let (kept, left) = settle_hybrid(hybrid, pool);
            &&& left.len() == 6
            &&& forall|s: int| 0 <= s < 6 ==> #[trigger] left[s] <= pool[s]
            &&& hybrid.len() == kept.len() + isum(widen(pool)) - isum(widen(left))
        }),
    decreases hybrid.len(),
{
    if hybrid.len() > 0 {
        let symbol = hybrid[0];
        let rest = hybrid.drop_first();
        if pool[symbol.0.slot()] > 0 {
            let smaller = pool.update(symbol.0.slot(), (pool[symbol.0.slot()] - 1) as u8);
            lemma_hybrid_accounting(rest, smaller);
            lemma_isum_dec(pool, symbol.0.slot());
            let left = settle_hybrid(hybrid, pool).1;
            assert forall|s: int| 0 <= s < 6 implies #[trigger] left[s] <= pool[s] by {
                assert(left[s] <= smaller[s]);
            }
        } else if pool[symbol.1.slot()] > 0 {
            let smaller = pool.update(symbol.1.slot(), (pool[symbol.1.slot()] - 1) as u8);
            lemma_hybrid_accounting(rest, smaller);
            lemma_isum_dec(pool, symbol.1.slot());
            let left = settle_hybrid(hybrid, pool).1;
            assert forall|s: int| 0 <= s < 6 implies #[trigger] left[s] <= pool[s] by {
                assert(left[s] <= smaller[s]);
            }
        } else {
            lemma_hybrid_accounting(rest, pool);
        }
    }
}

/// What greedy generic settlement consumed, and that it stops only when the
/// generic symbols are paid or the pool is empty.
pub proof fn lemma_generic_accounting(generic: nat, pool: Seq<u8>)
    requires
        pool.len() == 6,
    ensures
        ({
            let (unpaid, left) = settle_generic(generic, pool);
            &&& left.len() == 6
            &&& forall|s: int| 0 <= s < 6 ==> #[trigger] left[s] <= pool[s]
            &&& generic == unpaid + isum(widen(pool)) - isum(widen(left))
            &&& unpaid > 0 ==> forall|s: int| 0 <= s < 6 ==> #[trigger] left[s] == 0
        }),
    decreases generic,
{
    if generic > 0 {
        let slot = first_positive(pool, 0);
        if slot < 6 {
            lemma_first_positive_holds(pool, 0);
            let smaller = pool.update(slot, (pool[slot] - 1) as u8);
            lemma_isum_dec(pool, slot);
            lemma_generic_accounting((generic - 1) as nat, smaller);
            let left = settle_generic(generic, pool).1;
            assert forall|s: int| 0 <= s < 6 implies #[trigger] left[s] <= pool[s] by {
                assert(left[s] <= smaller[s]);
            }
        } else {
            lemma_first_positive_none(pool, 0);
        }
    }
}

/// How many symbols a demand still asks for.
pub open spec fn demand_size(demand: DemandView) -> int {
    (demand.0.len() + demand.1.len() + demand.2) as int
}

/// Settling a demand takes one unit of mana for each symbol it pays, and
/// takes it only from the pool.
pub proof fn lemma_settle_consumes(demand: DemandView, pool: Seq<u8>)
    requires
        pool.len() == 6,
    ensures
        demand.1.len() == 0 ==> settle(demand, pool).0.1.len() == 0,
        settle(demand, pool).1.len() == 6,
        forall|s: int| 0 <= s < 6 ==> #[trigger] settle(demand, pool).1[s] <= pool[s],
        isum(widen(settle(demand, pool).1)) == isum(widen(pool)) - (demand_size(demand) - demand_size(
            settle(demand, pool).0,
        )),
{
    let (kept, left) = settle_colored(demand.0, pool);
    lemma_colored_accounting(demand.0, pool);
    let (still, rest) = settle_hybrid(demand.1, left);
    lemma_hybrid_accounting(demand.1, left);
    if demand.1.len() == 0 {
        assert(settle_hybrid(demand.1, left) == (demand.1, left));
    }
    lemma_generic_accounting(demand.2, rest);
    let last = settle(demand, pool).1;
    assert forall|s: int| 0 <= s < 6 implies #[trigger] last[s] <= pool[s] by {
        assert(last[s] <= rest[s]);
        assert(rest[s] <= left[s]);
    }
}

/// A pool's total is the sum of its six slots.
pub proof fn lemma_pool_total(pool: Seq<u8>)
    requires
        pool.len() == 6,
    ensures
        crate::planner::mana::pool_total(pool) == isum(widen(pool)),
{
    reveal_with_fuel(crate::planner::mana::pool_sum, 7);
}

/// A demand with no hybrid symbols whose leftover pool holds no colour it
/// still needs, and nothing at all while generic symbols remain.
pub open spec fn settled(demand: DemandView, pool: Seq<u8>) -> bool {
    &&& pool.len() == 6
    &&& demand.1.len() == 0
    &&& forall|k: int| 0 <= k < demand.0.len() ==> pool[(#[trigger] demand.0[k]).slot()] == 0
    &&& demand.2 > 0 ==> forall|s: int| 0 <= s < 6 ==> #[trigger] pool[s] == 0
}

/// Whether every slot of an integer pool is non-negative.
pub open spec fn nonneg(pool: Seq<int>) -> bool {
    pool.len() == 6 && forall|s: int| 0 <= s < 6 ==> #[trigger] pool[s] >= 0
}

proof fn lemma_count_zero_absent(symbols: Seq<Color>, slot: int)
    requires
        forall|k: int| 0 <= k < symbols.len() ==> (#[trigger] symbols[k]).slot() != slot,
    ensures
        count_slot(symbols, slot) == 0,
    decreases symbols.len(),
{
    if symbols.len() > 0 {
        assert forall|k: int| 0 <= k < symbols.drop_first().len() implies (
        #[trigger] symbols.drop_first()[k]).slot() != slot by {
            assert(symbols.drop_first()[k] == symbols[k + 1]);
        }
        lemma_count_zero_absent(symbols.drop_first(), slot);
    }
}

/// Settling a demand without hybrid symbols leaves it settled, takes only from
/// the pool, and keeps it payable from the leftover pool plus anything added.
pub proof fn lemma_settle_keeps_payable(demand: DemandView, pool: Seq<u8>, extra: Seq<int>)
    requires
        pool.len() == 6,
        demand.1.len() == 0,
        nonneg(extra),
    ensures
        settled(settle(demand, pool).0, settle(demand, pool).1),
        forall|s: int| 0 <= s < 6 ==> #[trigger] settle(demand, pool).1[s] <= pool[s],
        pays_with(demand, plus(widen(pool), extra), Seq::empty()) ==> pays_with(
            settle(demand, pool).0,
            plus(widen(settle(demand, pool).1), extra),
            Seq::empty(),
        ),
{
    let (kept, left) = settle_colored(demand.0, pool);
    lemma_colored_accounting(demand.0, pool);
    assert(settle_hybrid(demand.1, left) == (demand.1, left));
    let (unpaid, last) = settle_generic(demand.2, left);
    lemma_generic_accounting(demand.2, left);
    let next: DemandView = (kept, demand.1, unpaid);
    assert(settle(demand, pool) == (next, last));
    assert forall|k: int| 0 <= k < kept.len() implies last[(#[trigger] kept[k]).slot()] == 0 by {
        assert(left[kept[k].slot()] == 0);
    }
    assert forall|s: int| 0 <= s < 6 implies #[trigger] last[s] <= pool[s] by {
        assert(last[s] <= left[s]);
    }
    if pays_with(demand, plus(widen(pool), extra), Seq::empty()) {
        let target = plus(widen(last), extra);
        assert forall|s: int| 0 <= s < 6 implies count_slot(kept, s) + count_slot(Seq::<Color>::empty(), s)
            <= #[trigger] target[s] by {
            assert(count_slot(Seq::<Color>::empty(), s) == 0);
            assert(count_slot(demand.0, s) + count_slot(Seq::<Color>::empty(), s) <= plus(widen(pool), extra)[s]);
            if exists|k: int| 0 <= k < kept.len() && (#[trigger] kept[k]).slot() == s {
                let k = choose|k: int| 0 <= k < kept.len() && (#[trigger] kept[k]).slot() == s;
                assert(left[s] == 0);
                assert(last[s] <= left[s]);
            } else {
                lemma_count_zero_absent(kept, s);
            }
        }
        assert(isum(target) == isum(widen(last)) + isum(extra));
        assert(isum(plus(widen(pool), extra)) == isum(widen(pool)) + isum(extra));
    }
}

// ---------------------------------------------------------------------------
// Selections of sources
// ---------------------------------------------------------------------------

/// What option `opt` of the permanent in slot `slot` of `mine` yields.
pub open spec fn option_yield(mine: Seq<Permanent>, slot: int, opt: int) -> Seq<int> {
    widen(option_list(mine[slot].source->0)[opt].0)
}

/// What activating the permanent in slot `slots[k]` with option `opts[k]`,
/// for every `k`, yields in total.
pub open spec fn selection_yield(mine: Seq<Permanent>, slots: Seq<int>, opts: Seq<int>) -> Seq<int>
    decreases slots.len(),
{
    if slots.len() == 0 {
        zeros()
    } else {
        plus(option_yield(mine, slots[0], opts[0]), selection_yield(mine, slots.drop_first(), opts.drop_first()))
    }
}

/// At most [`MAX_TAPS`] distinct ready permanents of `mine`, each with one of
/// its ways of producing mana.
pub open spec fn selection(mine: Seq<Permanent>, slots: Seq<int>, opts: Seq<int>) -> bool {
    &&& slots.len() == opts.len()
    &&& slots.len() <= MAX_TAPS
    &&& forall|k: int|
        0 <= k < slots.len() ==> {
            &&& 0 <= #[trigger] slots[k] < mine.len()
            &&& ready_source(mine[slots[k]])
            &&& 0 <= opts[k] < option_list(mine[slots[k]].source->0).len()
        }
    &&& forall|k: int, m: int| 0 <= k < m < slots.len() ==> slots[k] != slots[m]
}

/// The most mana of pool slot `s` any one of `options` makes.
pub open spec fn option_cap(options: Seq<(Seq<u8>, Option<Color>)>, s: int) -> int
    decreases options.len(),
{
    if options.len() == 0 {
        0
    } else {
        let rest = option_cap(options.drop_last(), s);
        let last = options.last().0[s] as int;
        if last > rest {
            last
        } else {
            rest
        }
    }
}

/// The most mana of pool slot `s` the unused sources among the first `n` of
/// `sources` can add, one activation each.
pub open spec fn headroom(mine: Seq<Permanent>, sources: Seq<Source>, used: Seq<bool>, s: int, n: int) -> int
    decreases n,
{
    if n <= 0 {
        0
    } else {
        headroom(mine, sources, used, s, n - 1) + if used[n - 1] {
            0
        } else {
            option_cap(option_list(kind_of(mine, sources[n - 1])), s)
        }
    }
}

/// No pool slot can reach past the `u8` ceiling: the floating mana of each
/// colour plus the most every unused source can add of it stays within 255.
pub open spec fn pool_fits(mine: Seq<Permanent>, sources: Seq<Source>, used: Seq<bool>, floating: Seq<u8>) -> bool {
    forall|s: int|
        0 <= s < 6 ==> #[trigger] floating[s] + headroom(mine, sources, used, s, sources.len() as int) <= 255
}

/// No pool slot the planner builds can pass the `u8` ceiling: the floating
/// mana of each colour plus the most every available source can make of it
/// is at most 255.
pub open spec fn within_pool_range(board: Board) -> bool {
    let sources = available_spec(board.mine@);
    pool_fits(board.mine@, sources, Seq::new(sources.len(), |i: int| false), board.floating@)
}

proof fn lemma_option_cap(options: Seq<(Seq<u8>, Option<Color>)>, j: int, s: int)
    requires
        0 <= j < options.len(),
    ensures
        options[j].0[s] <= option_cap(options, s),
    decreases options.len(),
{
    if j < options.len() - 1 {
        lemma_option_cap(options.drop_last(), j, s);
    }
}

proof fn lemma_option_cap_nonneg(options: Seq<(Seq<u8>, Option<Color>)>, s: int)
    ensures
        option_cap(options, s) >= 0,
    decreases options.len(),
{
    if options.len() > 0 {
        lemma_option_cap_nonneg(options.drop_last(), s);
    }
}

proof fn lemma_headroom_nonneg(mine: Seq<Permanent>, sources: Seq<Source>, used: Seq<bool>, s: int, n: int)
    ensures
        headroom(mine, sources, used, s, n) >= 0,
    decreases n,
{
    if n > 0 {
        lemma_headroom_nonneg(mine, sources, used, s, n - 1);
        lemma_option_cap_nonneg(option_list(kind_of(mine, sources[n - 1])), s);
    }
}

/// Using source `i` takes its most of slot `s` out of the headroom.
proof fn lemma_headroom_mark(mine: Seq<Permanent>, sources: Seq<Source>, used: Seq<bool>, s: int, n: int, i: int)
    requires
        0 <= i < used.len(),
        !used[i],
        n <= used.len(),
    ensures
        headroom(mine, sources, used.update(i, true), s, n) == headroom(mine, sources, used, s, n) - if i < n {
            option_cap(option_list(kind_of(mine, sources[i])), s)
        } else {
            0
        },
    decreases n,
{
    if n > 0 {
        lemma_headroom_mark(mine, sources, used, s, n - 1, i);
    }
}

/// Activating an unused source one of its ways, while the pools fit, adds
/// its mana without saturating, and what settling leaves still fits with
/// that source used.
pub proof fn lemma_fits_step(
    mine: Seq<Permanent>,
    sources: Seq<Source>,
    used: Seq<bool>,
    demand: DemandView,
    floating: Seq<u8>,
    i: int,
    j: int,
)
    requires
        used.len() == sources.len(),
        floating.len() == 6,
        pool_fits(mine, sources, used, floating),
        0 <= i < sources.len(),
        !used[i],
        0 <= j < option_list(kind_of(mine, sources[i])).len(),
    ensures
        ({
            let pool = option_list(kind_of(mine, sources[i]))[j].0;
            let combined = combine(floating, pool);
            &&& forall|s: int| 0 <= s < 6 ==> #[trigger] combined[s] == floating[s] + pool[s]
            &&& pool_fits(mine, sources, used.update(i, true), settle(demand, combined).1)
        }),
{
    let kind = kind_of(mine, sources[i]);
    let options = option_list(kind);
    let pool = options[j].0;
    let combined = combine(floating, pool);
    let marked = used.update(i, true);
    let n = sources.len() as int;
    crate::planner::payment::lemma_option_yield(kind, j, sources[i].object);
    assert forall|s: int| 0 <= s < 6 implies #[trigger] combined[s] == floating[s] + pool[s]
        && headroom(mine, sources, marked, s, n) + pool[s] <= headroom(mine, sources, used, s, n) by {
        lemma_option_cap(options, j, s);
        lemma_headroom_mark(mine, sources, used, s, n, i);
        lemma_headroom_nonneg(mine, sources, marked, s, n);
        assert(floating[s] + headroom(mine, sources, used, s, n) <= 255);
    }
    lemma_settle_consumes(demand, combined);
    let leftover = settle(demand, combined).1;
    assert forall|s: int| 0 <= s < 6 implies #[trigger] leftover[s] + headroom(mine, sources, marked, s, n) <= 255 by {
        assert(leftover[s] <= combined[s]);
        assert(combined[s] == floating[s] + pool[s]);
        assert(floating[s] + headroom(mine, sources, used, s, n) <= 255);
    }
}

proof fn lemma_option_pool_len(mine: Seq<Permanent>, slot: int, opt: int)
    requires
        0 <= slot < mine.len(),
        mine[slot].source is Some,
        0 <= opt < option_list(mine[slot].source->0).len(),
    ensures
        option_list(mine[slot].source->0)[opt].0.len() == 6,
{
    crate::planner::payment::lemma_option_yield(mine[slot].source->0, opt, mine[slot].object);
}

proof fn lemma_selection_yield_nonneg(mine: Seq<Permanent>, slots: Seq<int>, opts: Seq<int>)
    requires
        slots.len() == opts.len(),
        forall|k: int|
            0 <= k < slots.len() ==> {
                &&& 0 <= #[trigger] slots[k] < mine.len()
                &&& mine[slots[k]].source is Some
                &&& 0 <= opts[k] < option_list(mine[slots[k]].source->0).len()
            },
    ensures
        nonneg(selection_yield(mine, slots, opts)),
    decreases slots.len(),
{
    if slots.len() > 0 {
        lemma_option_pool_len(mine, slots[0], opts[0]);
        assert forall|k: int| 0 <= k < slots.drop_first().len() implies {
            &&& 0 <= #[trigger] slots.drop_first()[k] < mine.len()
            &&& mine[slots.drop_first()[k]].source is Some
            &&& 0 <= opts.drop_first()[k] < option_list(mine[slots.drop_first()[k]].source->0).len()
        } by {
            assert(slots.drop_first()[k] == slots[k + 1]);
        }
        lemma_selection_yield_nonneg(mine, slots.drop_first(), opts.drop_first());
    }
}

/// Taking one activation out of a selection takes its yield out of the total.
proof fn lemma_selection_remove(mine: Seq<Permanent>, slots: Seq<int>, opts: Seq<int>, k: int)
    requires
        slots.len() == opts.len(),
        0 <= k < slots.len(),
    ensures
        selection_yield(mine, slots, opts) =~= plus(
            option_yield(mine, slots[k], opts[k]),
            selection_yield(mine, slots.remove(k), opts.remove(k)),
        ),
    decreases k,
{
    if k == 0 {
        assert(slots.remove(0) =~= slots.drop_first());
        assert(opts.remove(0) =~= opts.drop_first());
    } else {
        lemma_selection_remove(mine, slots.drop_first(), opts.drop_first(), k - 1);
        assert(slots.drop_first().remove(k - 1) =~= slots.remove(k).drop_first());
        assert(opts.drop_first().remove(k - 1) =~= opts.remove(k).drop_first());
        assert(slots.remove(k)[0] == slots[0]);
        assert(opts.remove(k)[0] == opts[0]);
    }
}

/// Some activation of a selection yields mana in a slot where the total does.
proof fn lemma_selection_hit(mine: Seq<Permanent>, slots: Seq<int>, opts: Seq<int>, s: int) -> (k: int)
    requires
        slots.len() == opts.len(),
        0 <= s < 6,
        selection_yield(mine, slots, opts)[s] > 0,
        forall|q: int|
            0 <= q < slots.len() ==> {
                &&& 0 <= #[trigger] slots[q] < mine.len()
                &&& mine[slots[q]].source is Some
                &&& 0 <= opts[q] < option_list(mine[slots[q]].source->0).len()
            },
    ensures
        0 <= k < slots.len(),
        option_yield(mine, slots[k], opts[k])[s] > 0,
    decreases slots.len(),
{
    if slots.len() == 0 {
        assert(zeros()[s] == 0);
        0
    } else {
        lemma_option_pool_len(mine, slots[0], opts[0]);
        if option_yield(mine, slots[0], opts[0])[s] > 0 {
            0
        } else {
            assert forall|q: int| 0 <= q < slots.drop_first().len() implies {
                &&& 0 <= #[trigger] slots.drop_first()[q] < mine.len()
                &&& mine[slots.drop_first()[q]].source is Some
                &&& 0 <= opts.drop_first()[q] < option_list(mine[slots.drop_first()[q]].source->0).len()
            } by {
                assert(slots.drop_first()[q] == slots[q + 1]);
            }
            let inner = lemma_selection_hit(mine, slots.drop_first(), opts.drop_first(), s);
            inner + 1
        }
    }
}


// ---------------------------------------------------------------------------
// The search tries every way to pay the most constrained symbol
// ---------------------------------------------------------------------------

/// Distinct unused entries of `sources`, each with one of its options.
pub open spec fn search_witness(
    mine: Seq<Permanent>,
    sources: Seq<Source>,
    used: Seq<bool>,
    picks: Seq<int>,
    opts: Seq<int>,
) -> bool {
    &&& picks.len() == opts.len()
    &&& forall|k: int|
        0 <= k < picks.len() ==> {
            &&& 0 <= #[trigger] picks[k] < sources.len()
            &&& !used[picks[k]]
            &&& 0 <= opts[k] < option_list(kind_of(mine, sources[picks[k]])).len()
        }
    &&& forall|k: int, m: int| 0 <= k < m < picks.len() ==> picks[k] != picks[m]
}

/// The board slots a list of source positions names.
pub open spec fn pick_slots(sources: Seq<Source>, picks: Seq<int>) -> Seq<int> {
    picks.map_values(|pick: int| sources[pick].slot as int)
}

/// What the activations of a search witness yield.
pub open spec fn witness_yield(mine: Seq<Permanent>, sources: Seq<Source>, picks: Seq<int>, opts: Seq<int>) -> Seq<
    int,
> {
    selection_yield(mine, pick_slots(sources, picks), opts)
}

proof fn lemma_witness_slots(
    mine: Seq<Permanent>,
    sources: Seq<Source>,
    used: Seq<bool>,
    picks: Seq<int>,
    opts: Seq<int>,
)
    requires
        sources_valid(mine, sources),
        search_witness(mine, sources, used, picks, opts),
    ensures
        ({
            let slots = pick_slots(sources, picks);
            &&& slots.len() == opts.len()
            &&& forall|q: int|
                0 <= q < slots.len() ==> {
                    &&& 0 <= #[trigger] slots[q] < mine.len()
                    &&& mine[slots[q]].source is Some
                    &&& 0 <= opts[q] < option_list(mine[slots[q]].source->0).len()
                }
        }),
        nonneg(witness_yield(mine, sources, picks, opts)),
{
    let slots = pick_slots(sources, picks);
    assert forall|q: int| 0 <= q < slots.len() implies {
        &&& 0 <= #[trigger] slots[q] < mine.len()
        &&& mine[slots[q]].source is Some
        &&& 0 <= opts[q] < option_list(mine[slots[q]].source->0).len()
    } by {
        let source = sources[picks[q]];
        assert(slots[q] == source.slot as int);
    }
    lemma_selection_yield_nonneg(mine, slots, opts);
}

proof fn lemma_count_first(symbols: Seq<Color>)
    requires
        symbols.len() > 0,
    ensures
        count_slot(symbols, symbols[0].slot()) >= 1,
{
    lemma_count_nonneg(symbols.drop_first(), symbols[0].slot());
}

/// A settled, unpaid, payable demand leaves some activation of the witness
/// that pays towards its most constrained symbol.
proof fn lemma_wanted_witness(
    mine: Seq<Permanent>,
    sources: Seq<Source>,
    used: Seq<bool>,
    demand: DemandView,
    floating: Seq<u8>,
    picks: Seq<int>,
    opts: Seq<int>,
) -> (k: int)
    requires
        sources_valid(mine, sources),
        settled(demand, floating),
        !demand_empty(demand),
        search_witness(mine, sources, used, picks, opts),
        pays_with(demand, plus(widen(floating), witness_yield(mine, sources, picks, opts)), Seq::empty()),
    ensures
        0 <= k < picks.len(),
        wanted_hit(demand, option_list(kind_of(mine, sources[picks[k]]))[opts[k]].0),
{
    let slots = pick_slots(sources, picks);
    let gained = witness_yield(mine, sources, picks, opts);
    lemma_witness_slots(mine, sources, used, picks, opts);
    let total = plus(widen(floating), gained);
    if demand.0.len() > 0 {
        let c = demand.0[0].slot();
        lemma_count_first(demand.0);
        assert(floating[c] == 0);
        assert(count_slot(Seq::<Color>::empty(), c) == 0);
        assert(count_slot(demand.0, c) + count_slot(Seq::<Color>::empty(), c) <= total[c]);
        let k = lemma_selection_hit(mine, slots, opts, c);
        lemma_option_pool_len(mine, slots[k], opts[k]);
        k
    } else {
        assert(demand.2 > 0);
        assert(floating[0] == 0 && floating[1] == 0 && floating[2] == 0);
        assert(floating[3] == 0 && floating[4] == 0 && floating[5] == 0);
        assert(isum(total) >= 1);
        let s = if gained[0] > 0 {
            0
        } else if gained[1] > 0 {
            1
        } else if gained[2] > 0 {
            2
        } else if gained[3] > 0 {
            3
        } else if gained[4] > 0 {
            4
        } else {
            5
        };
        assert(gained[s] > 0);
        let k = lemma_selection_hit(mine, slots, opts, s);
        lemma_option_pool_len(mine, slots[k], opts[k]);
        let pool = option_list(kind_of(mine, sources[picks[k]]))[opts[k]].0;
        assert(pool[s] > 0);
        k
    }
}

/// The search finds a plan whenever unused sources can pay a settled demand.
pub proof fn lemma_search_complete(
    mine: Seq<Permanent>,
    sources: Seq<Source>,
    used: Seq<bool>,
    demand: DemandView,
    floating: Seq<u8>,
    depth: nat,
    picks: Seq<int>,
    opts: Seq<int>,
)
    requires
        sources_valid(mine, sources),
        used.len() == sources.len(),
        settled(demand, floating),
        search_witness(mine, sources, used, picks, opts),
        depth + picks.len() <= MAX_TAPS,
        pool_fits(mine, sources, used, floating),
        pays_with(demand, plus(widen(floating), witness_yield(mine, sources, picks, opts)), Seq::empty()),
    ensures
        search_spec(mine, sources, used, demand, floating, depth) is Some,
    decreases unused(used), 1nat, 0nat, 0nat,
{
    if !demand_empty(demand) {
        let k = lemma_wanted_witness(mine, sources, used, demand, floating, picks, opts);
        lemma_scan_complete(mine, sources, used, demand, floating, depth, picks, opts, k, 0, 0);
    }
}

/// The scan from option `j` of source `i` finds a plan while the witness's
/// activation `k` is still ahead of it.
pub proof fn lemma_scan_complete(
    mine: Seq<Permanent>,
    sources: Seq<Source>,
    used: Seq<bool>,
    demand: DemandView,
    floating: Seq<u8>,
    depth: nat,
    picks: Seq<int>,
    opts: Seq<int>,
    k: int,
    i: int,
    j: int,
)
    requires
        sources_valid(mine, sources),
        used.len() == sources.len(),
        settled(demand, floating),
        search_witness(mine, sources, used, picks, opts),
        depth + picks.len() <= MAX_TAPS,
        pool_fits(mine, sources, used, floating),
        pays_with(demand, plus(widen(floating), witness_yield(mine, sources, picks, opts)), Seq::empty()),
        !demand_empty(demand),
        0 <= k < picks.len(),
        wanted_hit(demand, option_list(kind_of(mine, sources[picks[k]]))[opts[k]].0),
        0 <= i,
        0 <= j,
        i < picks[k] || (i == picks[k] && j <= opts[k]),
    ensures
        scan_spec(mine, sources, used, demand, floating, depth, i, j) is Some,
    decreases unused(used), 0nat, sources.len() - i, option_list(kind_of(mine, sources[i])).len() - j,
{
    if used[i] {
        lemma_scan_complete(mine, sources, used, demand, floating, depth, picks, opts, k, i + 1, 0);
    } else {
        let source = sources[i];
        let kind = kind_of(mine, source);
        let options = option_list(kind);
        if j >= options.len() {
            lemma_scan_complete(mine, sources, used, demand, floating, depth, picks, opts, k, i + 1, 0);
        } else {
            let (pool, color) = options[j];
            if !wanted_hit(demand, pool) {
                lemma_scan_complete(mine, sources, used, demand, floating, depth, picks, opts, k, i, j + 1);
            } else {
                let combined = combine(floating, pool);
                let (next, leftover) = settle(demand, combined);
                lemma_unused_mark(used, i);
                let marked = used.update(i, true);
                if search_spec(mine, sources, marked, next, leftover, depth + 1) is None {
                    if i == picks[k] && j == opts[k] {
                        lemma_child_witness(mine, sources, used, demand, floating, depth, picks, opts, k);
                        lemma_search_complete(
                            mine,
                            sources,
                            marked,
                            next,
                            leftover,
                            depth + 1,
                            picks.remove(k),
                            opts.remove(k),
                        );
                    } else {
                        lemma_scan_complete(mine, sources, used, demand, floating, depth, picks, opts, k, i, j + 1);
                    }
                }
            }
        }
    }
}

/// Taking the witness's activation `k` leaves a witness for the search one
/// level down.
proof fn lemma_child_witness(
    mine: Seq<Permanent>,
    sources: Seq<Source>,
    used: Seq<bool>,
    demand: DemandView,
    floating: Seq<u8>,
    depth: nat,
    picks: Seq<int>,
    opts: Seq<int>,
    k: int,
)
    requires
        sources_valid(mine, sources),
        used.len() == sources.len(),
        settled(demand, floating),
        search_witness(mine, sources, used, picks, opts),
        depth + picks.len() <= MAX_TAPS,
        pool_fits(mine, sources, used, floating),
        pays_with(demand, plus(widen(floating), witness_yield(mine, sources, picks, opts)), Seq::empty()),
        0 <= k < picks.len(),
    ensures
        ({
            let pool = option_list(kind_of(mine, sources[picks[k]]))[opts[k]].0;
            let (next, leftover) = settle(demand, combine(floating, pool));
            let marked = used.update(picks[k], true);
            &&& settled(next, leftover)
            &&& search_witness(mine, sources, marked, picks.remove(k), opts.remove(k))
            &&& pool_fits(mine, sources, marked, leftover)
            &&& pays_with(
                next,
                plus(widen(leftover), witness_yield(mine, sources, picks.remove(k), opts.remove(k))),
                Seq::empty(),
            )
        }),
{
    let i = picks[k];
    let pool = option_list(kind_of(mine, sources[i]))[opts[k]].0;
    let combined = combine(floating, pool);
    let marked = used.update(i, true);
    let rest_picks = picks.remove(k);
    let rest_opts = opts.remove(k);
    lemma_option_pool_len(mine, sources[i].slot as int, opts[k]);
    lemma_fits_step(mine, sources, used, demand, floating, i, opts[k]);
    assert forall|q: int| 0 <= q < rest_picks.len() implies {
        &&& 0 <= #[trigger] rest_picks[q] < sources.len()
        &&& !marked[rest_picks[q]]
        &&& 0 <= rest_opts[q] < option_list(kind_of(mine, sources[rest_picks[q]])).len()
    } by {
        if q < k {
            assert(rest_picks[q] == picks[q]);
            assert(rest_opts[q] == opts[q]);
        } else {
            assert(rest_picks[q] == picks[q + 1]);
            assert(rest_opts[q] == opts[q + 1]);
        }
    }
    assert forall|q: int, m: int| 0 <= q < m < rest_picks.len() implies rest_picks[q] != rest_picks[m] by {
        let a = if q < k {
            q
        } else {
            q + 1
        };
        let b = if m < k {
            m
        } else {
            m + 1
        };
        assert(rest_picks[q] == picks[a]);
        assert(rest_picks[m] == picks[b]);
    }
    lemma_witness_slots(mine, sources, marked, rest_picks, rest_opts);
    let slots = pick_slots(sources, picks);
    assert(pick_slots(sources, rest_picks) =~= slots.remove(k));
    lemma_selection_remove(mine, slots, opts, k);
    let rest_gain = witness_yield(mine, sources, rest_picks, rest_opts);
    assert(plus(widen(combined), rest_gain) =~= plus(widen(floating), witness_yield(mine, sources, picks, opts)));
    lemma_settle_keeps_payable(demand, combined, rest_gain);
}


// ---------------------------------------------------------------------------
// Every ready permanent is a source the search considers
// ---------------------------------------------------------------------------

proof fn lemma_insert_keeps(sorted: Seq<Source>, source: Source)
    ensures
        insert_source(sorted, source).contains(source),
        forall|entry: Source| sorted.contains(entry) ==> #[trigger] insert_source(sorted, source).contains(entry),
    decreases sorted.len(),
{
    let result = insert_source(sorted, source);
    if sorted.len() == 0 {
        assert(result[0] == source);
    } else if crate::planner::mana::source_le(sorted.last(), source) {
        assert(result[sorted.len() as int] == source);
        assert forall|entry: Source| sorted.contains(entry) implies #[trigger] result.contains(entry) by {
            let q = choose|q: int| 0 <= q < sorted.len() && sorted[q] == entry;
            assert(result[q] == entry);
        }
    } else {
        let shorter = sorted.drop_last();
        lemma_insert_keeps(shorter, source);
        let inner = insert_source(shorter, source);
        let q = choose|q: int| 0 <= q < inner.len() && inner[q] == source;
        assert(result[q] == source);
        assert forall|entry: Source| sorted.contains(entry) implies #[trigger] result.contains(entry) by {
            let q = choose|q: int| 0 <= q < sorted.len() && sorted[q] == entry;
            if q == sorted.len() - 1 {
                assert(result[inner.len() as int] == entry);
            } else {
                assert(shorter[q] == entry);
                assert(inner.contains(entry));
                let r = choose|r: int| 0 <= r < inner.len() && inner[r] == entry;
                assert(result[r] == entry);
            }
        }
    }
}

proof fn lemma_sort_keeps(sources: Seq<Source>)
    ensures
        forall|entry: Source| sources.contains(entry) ==> #[trigger] sort_sources(sources).contains(entry),
    decreases sources.len(),
{
    if sources.len() > 0 {
        let shorter = sources.drop_last();
        lemma_sort_keeps(shorter);
        lemma_insert_keeps(sort_sources(shorter), sources.last());
        assert forall|entry: Source| sources.contains(entry) implies #[trigger] sort_sources(sources).contains(
            entry,
        ) by {
            let q = choose|q: int| 0 <= q < sources.len() && sources[q] == entry;
            if q < sources.len() - 1 {
                assert(shorter[q] == entry);
                assert(sort_sources(shorter).contains(entry));
            }
        }
    }
}

proof fn lemma_ready_prefix_has(mine: Seq<Permanent>, n: int, slot: int)
    requires
        0 <= slot < n <= mine.len() <= usize::MAX,
        ready_source(mine[slot]),
    ensures
        exists|p: int| 0 <= p < ready_prefix(mine, n).len() && #[trigger] ready_prefix(mine, n)[p].slot == slot,
    decreases n,
{
    let current = ready_prefix(mine, n);
    if slot == n - 1 {
        assert(current[current.len() - 1].slot == slot);
    } else {
        lemma_ready_prefix_has(mine, n - 1, slot);
        let earlier = ready_prefix(mine, n - 1);
        let p = choose|p: int| 0 <= p < earlier.len() && #[trigger] earlier[p].slot == slot;
        assert(current[p] == earlier[p]);
    }
}

/// Every ready permanent of `mine` is among the available sources.
proof fn lemma_available_has(mine: Seq<Permanent>, slot: int)
    requires
        0 <= slot < mine.len() <= usize::MAX,
        ready_source(mine[slot]),
    ensures
        exists|p: int| 0 <= p < available_spec(mine).len() && #[trigger] available_spec(mine)[p].slot == slot,
{
    let ready = ready_prefix(mine, mine.len() as int);
    lemma_ready_prefix_has(mine, mine.len() as int, slot);
    let p = choose|p: int| 0 <= p < ready.len() && #[trigger] ready[p].slot == slot;
    assert(ready.contains(ready[p]));
    lemma_sort_keeps(ready);
    assert(available_spec(mine).contains(ready[p]));
    let q = choose|q: int| 0 <= q < available_spec(mine).len() && available_spec(mine)[q] == ready[p];
    assert(available_spec(mine)[q].slot == slot);
}

// ---------------------------------------------------------------------------
// Lifting to whole plans
// ---------------------------------------------------------------------------

/// One attempt with fixed colours finds a plan whenever a selection pays them.
proof fn lemma_attempt_complete(board: Board, fixed: Seq<Color>, generic: nat, slots: Seq<int>, opts: Seq<int>)
    requires
        within_pool_range(board),
        selection(board.mine@, slots, opts),
        pays_with(
            (fixed, Seq::empty(), generic),
            plus(widen(board.floating@), selection_yield(board.mine@, slots, opts)),
            Seq::empty(),
        ),
    ensures
        attempt_spec(board, fixed, generic) is Some,
{
    let mine = board.mine@;
    assert(mine.len() == board.mine.len());
    let floating = board.floating@;
    let sources = available_spec(mine);
    lemma_available_sound(mine);
    assert forall|k: int| 0 <= k < slots.len() implies #[trigger] slots[k] == slots[k] && exists|p: int|
        0 <= p < sources.len() && #[trigger] sources[p].slot == slots[k] by {
        lemma_available_has(mine, slots[k]);
    }
    let picks = Seq::new(
        slots.len(),
        |k: int| choose|p: int| 0 <= p < sources.len() && #[trigger] sources[p].slot == slots[k],
    );
    assert forall|k: int| 0 <= k < slots.len() implies 0 <= #[trigger] picks[k] < sources.len()
        && sources[picks[k]].slot == slots[k] by {
        assert(exists|p: int| 0 <= p < sources.len() && #[trigger] sources[p].slot == slots[k]);
    }
    assert(pick_slots(sources, picks) =~= slots);
    let used = Seq::new(sources.len(), |i: int| false);
    assert forall|k: int, m: int| 0 <= k < m < picks.len() implies picks[k] != picks[m] by {
        assert(slots[k] != slots[m]);
    }
    assert(search_witness(mine, sources, used, picks, opts));
    let gained = selection_yield(mine, slots, opts);
    lemma_selection_yield_nonneg(mine, slots, opts);
    let fixed_demand: DemandView = (fixed, Seq::empty(), generic);
    lemma_settle_keeps_payable(fixed_demand, floating, gained);
    let (demand, leftover) = settle(fixed_demand, floating);
    assert forall|s: int| 0 <= s < 6 implies #[trigger] leftover[s] + headroom(mine, sources, used, s, sources.len() as int)
        <= 255 by {
        assert(leftover[s] <= floating[s]);
        assert(floating[s] + headroom(mine, sources, used, s, sources.len() as int) <= 255);
    }
    lemma_search_complete(mine, sources, used, demand, leftover, 0, picks, opts);
}

/// Trying each hybrid symbol as either colour reaches every hybrid choice.
proof fn lemma_branch_complete(
    board: Board,
    fixed: Seq<Color>,
    hybrid: Seq<(Color, Color)>,
    generic: nat,
    choice: Seq<Color>,
    slots: Seq<int>,
    opts: Seq<int>,
)
    requires
        within_pool_range(board),
        selection(board.mine@, slots, opts),
        choice.len() == hybrid.len(),
        forall|k: int| 0 <= k < choice.len() ==> (#[trigger] choice[k] == hybrid[k].0 || choice[k] == hybrid[k].1),
        pays_with(
            (fixed + choice, Seq::empty(), generic),
            plus(widen(board.floating@), selection_yield(board.mine@, slots, opts)),
            Seq::empty(),
        ),
    ensures
        branch_spec(board, fixed, hybrid, generic) is Some,
    decreases hybrid.len(),
{
    if hybrid.len() == 0 {
        assert(fixed + choice =~= fixed);
        lemma_attempt_complete(board, fixed, generic, slots, opts);
    } else {
        let rest = hybrid.drop_first();
        let paid = choice[0];
        let inner = choice.drop_first();
        assert(fixed.push(paid) + inner =~= fixed + choice);
        assert forall|k: int| 0 <= k < inner.len() implies (#[trigger] inner[k] == rest[k].0 || inner[k]
            == rest[k].1) by {
            assert(inner[k] == choice[k + 1]);
            assert(rest[k] == hybrid[k + 1]);
        }
        if paid == hybrid[0].0 {
            lemma_branch_complete(board, fixed.push(paid), rest, generic, inner, slots, opts);
        } else if branch_spec(board, fixed.push(hybrid[0].0), rest, generic) is None {
            lemma_branch_complete(board, fixed.push(paid), rest, generic, inner, slots, opts);
        }
    }
}

/// The planner never misses a payment: if some set of at most [`MAX_TAPS`]
/// distinct ready permanents, each activated one of its ways, together with
/// the floating mana pays `cost` (hybrid symbols with any colours), then
/// `plan` finds a plan. This holds while no pool slot can reach the `u8`
/// ceiling the pools saturate at.
pub proof fn plan_finds_every_payment(
    board: Board,
    cost: ManaCost,
    slots: Seq<int>,
    opts: Seq<int>,
    choice: Seq<Color>,
)
    requires
        within_pool_range(board),
        selection(board.mine@, slots, opts),
        pays_with(cost_demand(cost), plus(widen(board.floating@), selection_yield(board.mine@, slots, opts)), choice),
    ensures
        plan_spec(board, cost) is Some,
{
    let demand = cost_demand(cost);
    let pool = plus(widen(board.floating@), selection_yield(board.mine@, slots, opts));
    assert forall|s: int| 0 <= s < 6 implies count_slot(demand.0 + choice, s) + count_slot(
        Seq::<Color>::empty(),
        s,
    ) <= #[trigger] pool[s] by {
        lemma_count_concat(demand.0, choice, s);
        assert(count_slot(Seq::<Color>::empty(), s) == 0);
    }
    if greedy_spec(board, cost) is None {
        lemma_branch_complete(board, demand.0, demand.1, demand.2, choice, slots, opts);
    }
}


} // verus!
