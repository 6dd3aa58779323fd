//! The integer core of attack and block planning: who can block whom, who
//! dies in a fight, and how much damage gets through a best-case defence.

use vstd::prelude::*;
use crate::planner::board::{Keyword, ObjectId, Permanent};

verus! {

/// How willing a plan is to lose material for tempo.
#[derive(Clone, Copy, Debug, PartialEq, Eq, Structural)]
pub enum Aggression {
    /// Attack only when the trade is favourable or free.
    Measured,
    /// Attack when the trade is roughly even; damage has independent value.
    Pressing,
    /// Attack with everything that advances a lethal clock.
    AllIn,
}

/// An attacker keyword that makes a block impossible to count on from the
/// information a planner has.
pub open spec fn evades(keyword: Keyword) -> bool {
    match keyword {
        Keyword::Unblockable
        | Keyword::Fear
        | Keyword::BlackEvasion
        | Keyword::Landwalk(_)
        | Keyword::Mountainwalk => true,
        _ => false,
    }
}

/// Whether `blocker` can legally block `attacker`, conservatively.
///
/// The blocker's live eligibility flag must be set; a conditional blocking
/// restriction the view cannot evaluate rules the block out; a flier needs a
/// flying or reach blocker; evasion the planner cannot satisfy rules it out.
pub open spec fn blockable(blocker: Permanent, attacker: Permanent) -> bool {
    &&& blocker.can_block
    &&& !blocker.holds(Keyword::CannotBlockUnlessControlsMountain)
    &&& attacker.holds(Keyword::Flying) ==> blocker.holds(Keyword::Flying) || blocker.holds(
        Keyword::Reach,
    )
    &&& forall|k: int|
        0 <= k < attacker.keywords@.len() ==> !evades(#[trigger] attacker.keywords@[k])
}

/// Whether `blocker` is legally able to block `attacker`.
///
/// Deliberately conservative: when a restriction cannot be evaluated, the
/// pair is treated as unblockable so the planner never counts on a block the
/// engine would refuse.
pub fn can_block(blocker: &Permanent, attacker: &Permanent) -> (able: bool)
    ensures
        able == blockable(*blocker, *attacker),
{
    if !blocker.can_block {
        return false;
    }
    if blocker.has(Keyword::CannotBlockUnlessControlsMountain) {
        return false;
    }
    let mut i: usize = 0;
    while i < attacker.keywords.len()
        invariant
            i <= attacker.keywords@.len(),
            forall|k: int| 0 <= k < i ==> !evades(#[trigger] attacker.keywords@[k]),
        decreases attacker.keywords@.len() - i,
    {
        let blocked_out = match attacker.keywords[i] {
            Keyword::Unblockable
            | Keyword::Fear
            | Keyword::BlackEvasion
            | Keyword::Landwalk(_)
            | Keyword::Mountainwalk => true,
            _ => false,
        };
        if blocked_out {
            assert(evades(attacker.keywords@[i as int]));
            return false;
        }
        i = i + 1;
    }
    if attacker.has(Keyword::Flying) && !blocker.has(Keyword::Flying) && !blocker.has(Keyword::Reach) {
        return false;
    }
    true
}

/// Who may block whom: a blocker whose eligibility flag is clear never
/// blocks; nor does one that may only block while its controller has a
/// Mountain; a flier is blocked only by a flier or a creature with reach;
/// an unblockable, fear, black-evasion or landwalk attacker is never counted
/// as blockable; and with none of these in the way the block is legal.
pub proof fn blocking_follows_the_evasion_rules(blocker: Permanent, attacker: Permanent)
    ensures
        !blocker.can_block ==> !blockable(blocker, attacker),
        blocker.holds(Keyword::CannotBlockUnlessControlsMountain) ==> !blockable(blocker, attacker),
        attacker.holds(Keyword::Flying) && !blocker.holds(Keyword::Flying) && !blocker.holds(Keyword::Reach)
            ==> !blockable(blocker, attacker),
        attacker.holds(Keyword::Unblockable) || attacker.holds(Keyword::Fear) || attacker.holds(
            Keyword::BlackEvasion,
        ) || attacker.holds(Keyword::Mountainwalk) ==> !blockable(blocker, attacker),
        blocker.can_block && !blocker.holds(Keyword::CannotBlockUnlessControlsMountain) && !attacker.holds(
            Keyword::Flying,
        ) && !attacker.holds(Keyword::Unblockable) && !attacker.holds(Keyword::Fear) && !attacker.holds(
            Keyword::BlackEvasion,
        ) && !attacker.holds(Keyword::Mountainwalk) && (forall|k: int|
            0 <= k < attacker.keywords@.len() ==> !(#[trigger] attacker.keywords@[k] is Landwalk))
            ==> blockable(blocker, attacker),
{
    let keywords = attacker.keywords@;
    if attacker.holds(Keyword::Unblockable) {
        let k = choose|k: int| 0 <= k < keywords.len() && keywords[k] == Keyword::Unblockable;
        assert(evades(keywords[k]));
    }
    if attacker.holds(Keyword::Fear) {
        let k = choose|k: int| 0 <= k < keywords.len() && keywords[k] == Keyword::Fear;
        assert(evades(keywords[k]));
    }
    if attacker.holds(Keyword::BlackEvasion) {
        let k = choose|k: int| 0 <= k < keywords.len() && keywords[k] == Keyword::BlackEvasion;
        assert(evades(keywords[k]));
    }
    if attacker.holds(Keyword::Mountainwalk) {
        let k = choose|k: int| 0 <= k < keywords.len() && keywords[k] == Keyword::Mountainwalk;
        assert(evades(keywords[k]));
    }
    if blocker.can_block && !blocker.holds(Keyword::CannotBlockUnlessControlsMountain) && !attacker.holds(
        Keyword::Flying,
    ) && !attacker.holds(Keyword::Unblockable) && !attacker.holds(Keyword::Fear) && !attacker.holds(
        Keyword::BlackEvasion,
    ) && !attacker.holds(Keyword::Mountainwalk) && (forall|k: int|
        0 <= k < keywords.len() ==> !(#[trigger] keywords[k] is Landwalk)) {
        assert forall|k: int| 0 <= k < keywords.len() implies !evades(#[trigger] keywords[k]) by {
            assert(keywords.contains(keywords[k]));
            assert(!(keywords[k] is Landwalk));
        }
    }
}

/// What happens when an attacker and a blocker fight.
#[derive(Clone, Copy, Debug, PartialEq, Eq, Structural)]
pub struct Exchange {
    pub attacker_dies: bool,
    pub blocker_dies: bool,
}

/// Whether damage `power` dealt by a source with or without deathtouch kills
/// a creature of toughness `toughness`.
pub open spec fn kills(power: i16, deathtouch: bool, toughness: i16) -> bool {
    (deathtouch && power > 0) || power >= toughness
}

/// Whether a creature deals combat damage in the first-strike step.
pub open spec fn strikes_first(permanent: Permanent) -> bool {
    permanent.holds(Keyword::FirstStrike) || permanent.holds(Keyword::DoubleStrike)
}

/// The outcome of one attacker fighting one blocker.
pub open spec fn exchange_spec(attacker: Permanent, blocker: Permanent) -> Exchange {
    let attacker_kills = kills(attacker.power, attacker.holds(Keyword::Deathtouch), blocker.toughness);
    let blocker_kills = kills(blocker.power, blocker.holds(Keyword::Deathtouch), attacker.toughness);
    if strikes_first(attacker) && !strikes_first(blocker) && attacker_kills {
        Exchange { attacker_dies: false, blocker_dies: true }
    } else if strikes_first(blocker) && !strikes_first(attacker) && blocker_kills {
        Exchange { attacker_dies: true, blocker_dies: false }
    } else {
        Exchange { attacker_dies: blocker_kills, blocker_dies: attacker_kills }
    }
}

/// Resolves one attacker against one blocker.
///
/// A first striker that kills its opponent never takes damage back; without
/// first strike on exactly one side, both deal damage simultaneously.
pub fn exchange(attacker: &Permanent, blocker: &Permanent) -> (result: Exchange)
    ensures
        result == exchange_spec(*attacker, *blocker),
{
    let attacker_first = attacker.has(Keyword::FirstStrike) || attacker.has(Keyword::DoubleStrike);
    let blocker_first = blocker.has(Keyword::FirstStrike) || blocker.has(Keyword::DoubleStrike);
    let attacker_deathtouch = attacker.has(Keyword::Deathtouch);
    let blocker_deathtouch = blocker.has(Keyword::Deathtouch);
    let attacker_kills = (attacker_deathtouch && attacker.power > 0) || attacker.power >= blocker.toughness;
    let blocker_kills = (blocker_deathtouch && blocker.power > 0) || blocker.power >= attacker.toughness;
    if attacker_first && !blocker_first && attacker_kills {
        return Exchange { attacker_dies: false, blocker_dies: true };
    }
    if blocker_first && !attacker_first && blocker_kills {
        return Exchange { attacker_dies: true, blocker_dies: false };
    }
    Exchange { attacker_dies: blocker_kills, blocker_dies: attacker_kills }
}

/// A creature only dies in a fight if the other side's damage kills it.
pub proof fn exchange_deaths_are_earned(attacker: Permanent, blocker: Permanent)
    ensures
        exchange_spec(attacker, blocker).attacker_dies ==> kills(
            blocker.power,
            blocker.holds(Keyword::Deathtouch),
            attacker.toughness,
        ),
        exchange_spec(attacker, blocker).blocker_dies ==> kills(
            attacker.power,
            attacker.holds(Keyword::Deathtouch),
            blocker.toughness,
        ),
        strikes_first(attacker) && !strikes_first(blocker) ==> !(exchange_spec(attacker, blocker).attacker_dies
            && exchange_spec(attacker, blocker).blocker_dies),
        strikes_first(blocker) && !strikes_first(attacker) ==> !(exchange_spec(attacker, blocker).attacker_dies
            && exchange_spec(attacker, blocker).blocker_dies),
{
}

/// Who dies when an attacker meets a blocker. When neither side or both
/// sides strike first, the damage is simultaneous: each side dies exactly
/// when the other deals it lethal damage, where any positive damage from a
/// deathtouch source is lethal. When only one side strikes first, its victim
/// dies exactly when that first strike is lethal, and the first striker dies
/// exactly when it fails to kill and the other side's damage is lethal.
pub proof fn exchange_deaths_follow_damage(attacker: Permanent, blocker: Permanent)
    ensures
        ({
            let result = exchange_spec(attacker, blocker);
            let attacker_first = attacker.holds(Keyword::FirstStrike) || attacker.holds(Keyword::DoubleStrike);
            let blocker_first = blocker.holds(Keyword::FirstStrike) || blocker.holds(Keyword::DoubleStrike);
            let attacker_lethal = (attacker.holds(Keyword::Deathtouch) && attacker.power > 0) || attacker.power
                >= blocker.toughness;
            let blocker_lethal = (blocker.holds(Keyword::Deathtouch) && blocker.power > 0) || blocker.power
                >= attacker.toughness;
            &&& attacker_first == blocker_first ==> {
                &&& result.attacker_dies == blocker_lethal
                &&& result.blocker_dies == attacker_lethal
            }
            &&& attacker_first && !blocker_first ==> {
                &&& result.blocker_dies == attacker_lethal
                &&& result.attacker_dies == (!attacker_lethal && blocker_lethal)
            }
            &&& blocker_first && !attacker_first ==> {
                &&& result.attacker_dies == blocker_lethal
                &&& result.blocker_dies == (!blocker_lethal && attacker_lethal)
            }
        }),
{
}

/// The attack declaration a planner recommends.
#[derive(Clone, Debug, PartialEq, Eq)]
pub struct AttackPlan {
    pub attackers: Vec<ObjectId>,
    /// True when this attack is lethal against the primary opponent even if
    /// every available blocker blocks optimally.
    pub is_lethal: bool,
}

impl AttackPlan {
    /// The empty declaration: nobody attacks.
    pub fn none() -> (plan: AttackPlan)
        ensures
            plan.attackers@.len() == 0,
            !plan.is_lethal,
    {
        AttackPlan { attackers: Vec::new(), is_lethal: false }
    }
}

/// One blocker assigned to one attacker.
#[derive(Clone, Copy, Debug, PartialEq, Eq, Structural)]
pub struct Block {
    pub attacker: ObjectId,
    pub blocker: ObjectId,
}

// ---------------------------------------------------------------------------
// The defender's best case
// ---------------------------------------------------------------------------

/// Whether attacker `a` may stay ahead of attacker `b` when ordering by
/// descending power.
pub open spec fn stays_ahead(attackers: Seq<Permanent>, a: int, b: int) -> bool {
    attackers[a].power >= attackers[b].power
}

/// Inserts `index` after every entry that may stay ahead of it.
pub open spec fn insert_by_power(attackers: Seq<Permanent>, sorted: Seq<int>, index: int) -> Seq<int>
    decreases sorted.len(),
{
    if sorted.len() == 0 {
        seq![index]
    } else if stays_ahead(attackers, sorted.last(), index) {
        sorted.push(index)
    } else {
        insert_by_power(attackers, sorted.drop_last(), index).push(sorted.last())
    }
}

/// The first `n` attacker indices, stably ordered by descending power.
pub open spec fn power_order(attackers: Seq<Permanent>, n: int) -> Seq<int>
    decreases n,
{
    if n <= 0 {
        Seq::empty()
    } else {
        insert_by_power(attackers, power_order(attackers, n - 1), n - 1)
    }
}

/// The first unused blocker at or after `from` that can block `attacker`, or
/// `blockers.len()` when there is none.
pub open spec fn first_free_blocker(attacker: Permanent, blockers: Seq<Permanent>, used: Seq<bool>, from: int) -> int
    decreases blockers.len() - from,
{
    if from < 0 || from >= blockers.len() {
        blockers.len() as int
    } else if !used[from] && blockable(blockers[from], attacker) {
        from
    } else {
        first_free_blocker(attacker, blockers, used, from + 1)
    }
}

/// Which attackers the defender absorbs, walking `order` from position `k`:
/// each non-trampling attacker is blocked by the first unused blocker that
/// can block it.
pub open spec fn absorb(
    attackers: Seq<Permanent>,
    blockers: Seq<Permanent>,
    order: Seq<int>,
    k: int,
    used: Seq<bool>,
    absorbed: Seq<bool>,
) -> Seq<bool>
    decreases order.len() - k,
{
    if k < 0 || k >= order.len() {
        absorbed
    } else {
        let index = order[k];
        let attacker = attackers[index];
        if attacker.holds(Keyword::Trample) {
            absorb(attackers, blockers, order, k + 1, used, absorbed)
        } else {
            let slot = first_free_blocker(attacker, blockers, used, 0);
            if slot < blockers.len() {
                absorb(attackers, blockers, order, k + 1, used.update(slot, true), absorbed.update(index, true))
            } else {
                absorb(attackers, blockers, order, k + 1, used, absorbed)
            }
        }
    }
}

/// The power of the first `n` attackers that are not absorbed.
pub open spec fn unabsorbed_power(attackers: Seq<Permanent>, absorbed: Seq<bool>, n: int) -> int
    decreases n,
{
    if n <= 0 {
        0
    } else {
        unabsorbed_power(attackers, absorbed, n - 1) + if absorbed[n - 1] {
            0int
        } else {
            attackers[n - 1].power as int
        }
    }
}

/// Damage that gets through if the defender blocks as well as it can, one
/// blocker per attacker, absorbing the largest attackers first.
pub open spec fn worst_case_spec(attackers: Seq<Permanent>, blockers: Seq<Permanent>) -> int {
    let absorbed = absorb(
        attackers,
        blockers,
        power_order(attackers, attackers.len() as int),
        0,
        Seq::new(blockers.len(), |i: int| false),
        Seq::new(attackers.len(), |i: int| false),
    );
    unabsorbed_power(attackers, absorbed, attackers.len() as int)
}

proof fn lemma_insert_by_power_at(attackers: Seq<Permanent>, sorted: Seq<int>, index: int, position: int)
    requires
        0 <= position <= sorted.len(),
        forall|q: int| position <= q < sorted.len() ==> !stays_ahead(attackers, #[trigger] sorted[q], index),
        position == 0 || stays_ahead(attackers, sorted[position - 1], index),
    ensures
        insert_by_power(attackers, sorted, index) == sorted.take(position) + seq![index] + sorted.skip(position),
    decreases sorted.len(),
{
    if sorted.len() == position {
        assert(sorted.take(position) =~= sorted);
        assert(sorted.skip(position) =~= Seq::<int>::empty());
        if sorted.len() == 0 {
            assert(seq![index] =~= Seq::<int>::empty() + seq![index] + Seq::<int>::empty());
        } else {
            assert(sorted.push(index) =~= sorted + seq![index] + Seq::<int>::empty());
        }
    } else {
        let shorter = sorted.drop_last();
        assert(!stays_ahead(attackers, sorted[sorted.len() - 1], index));
        lemma_insert_by_power_at(attackers, shorter, index, position);
        assert(shorter.take(position) =~= sorted.take(position));
        assert((shorter.take(position) + seq![index] + shorter.skip(position)).push(sorted.last())
            =~= sorted.take(position) + seq![index] + sorted.skip(position));
    }
}

/// The indices `0..n` in descending power order, stably.
fn order_by_power(attackers: &Vec<Permanent>) -> (order: Vec<usize>)
    ensures
        order@.map_values(|i: usize| i as int) == power_order(attackers@, attackers@.len() as int),
        forall|q: int| 0 <= q < order@.len() ==> (#[trigger] order@[q]) < attackers@.len(),
{
    let mut order: Vec<usize> = Vec::new();
    let mut n: usize = 0;
    while n < attackers.len()
        invariant
            n <= attackers@.len(),
            order@.map_values(|i: usize| i as int) == power_order(attackers@, n as int),
            forall|q: int| 0 <= q < order@.len() ==> (#[trigger] order@[q]) < n,
        decreases attackers@.len() - n,
    {
        let ghost sorted = order@.map_values(|i: usize| i as int);
        let mut position = order.len();
        while position > 0 && attackers[order[position - 1]].power < attackers[n].power
            invariant
                position <= order@.len(),
                sorted == order@.map_values(|i: usize| i as int),
                forall|q: int| 0 <= q < order@.len() ==> (#[trigger] order@[q]) < n,
                n < attackers@.len(),
                forall|q: int| position <= q < sorted.len() ==> !stays_ahead(attackers@, #[trigger] sorted[q], n as int),
            decreases position,
        {
            position = position - 1;
        }
        proof {
            lemma_insert_by_power_at(attackers@, sorted, n as int, position as int);
        }
        let ghost before = order@;
        order.insert(position, n);
        assert(order@.map_values(|i: usize| i as int) =~= sorted.take(position as int) + seq![n as int]
            + sorted.skip(position as int));
        n = n + 1;
        assert forall|q: int| 0 <= q < order@.len() implies (#[trigger] order@[q]) < n by {
            if q < position {
                assert(order@[q] == before[q]);
            } else if q > position {
                assert(order@[q] == before[q - 1]);
            }
        }
    }
    order
}


/// The first unused blocker that can block `attacker`, or `blockers.len()`.
fn first_free(attacker: &Permanent, blockers: &Vec<Permanent>, used: &Vec<bool>) -> (slot: usize)
    requires
        used@.len() == blockers@.len(),
    ensures
        slot == first_free_blocker(*attacker, blockers@, used@, 0),
        slot <= blockers@.len(),
{
    let mut slot: usize = 0;
    while slot < blockers.len()
        invariant
            slot <= blockers@.len() == used@.len(),
            first_free_blocker(*attacker, blockers@, used@, 0) == first_free_blocker(
                *attacker,
                blockers@,
                used@,
                slot as int,
            ),
        decreases blockers@.len() - slot,
    {
        if !used[slot] && can_block(&blockers[slot], attacker) {
            return slot;
        }
        slot = slot + 1;
    }
    slot
}

/// Damage that gets through if the defender blocks as well as it possibly
/// can: one blocker per attacker, the largest attackers absorbed first, and a
/// trampler never fully absorbed.
pub fn worst_case_damage(attackers: &Vec<Permanent>, blockers: &Vec<Permanent>) -> (damage: i32)
    requires
        attackers@.len() <= 65535,
    ensures
        damage == worst_case_spec(attackers@, blockers@),
{
    let order = order_by_power(attackers);
    let ghost order_view = order@.map_values(|i: usize| i as int);
    let mut used: Vec<bool> = Vec::new();
    let mut b: usize = 0;
    while b < blockers.len()
        invariant
            b <= blockers@.len(),
            used@ =~= Seq::new(b as nat, |i: int| false),
        decreases blockers@.len() - b,
    {
        used.push(false);
        b = b + 1;
    }
    let mut absorbed: Vec<bool> = Vec::new();
    let mut a: usize = 0;
    while a < attackers.len()
        invariant
            a <= attackers@.len(),
            absorbed@ =~= Seq::new(a as nat, |i: int| false),
        decreases attackers@.len() - a,
    {
        absorbed.push(false);
        a = a + 1;
    }
    let ghost target = absorb(attackers@, blockers@, order_view, 0, used@, absorbed@);
    let mut k: usize = 0;
    while k < order.len()
        invariant
            k <= order@.len(),
            order_view == order@.map_values(|i: usize| i as int),
            forall|q: int| 0 <= q < order@.len() ==> (#[trigger] order@[q]) < attackers@.len(),
            used@.len() == blockers@.len(),
            absorbed@.len() == attackers@.len(),
            absorb(attackers@, blockers@, order_view, k as int, used@, absorbed@) == target,
        decreases order@.len() - k,
    {
        let index = order[k];
        assert(order_view[k as int] == index as int);
        let attacker = &attackers[index];
        if !attacker.has(Keyword::Trample) {
            let slot = first_free(attacker, blockers, &used);
            if slot < blockers.len() {
                used.set(slot, true);
                absorbed.set(index, true);
            }
        }
        k = k + 1;
    }
    let mut damage: i32 = 0;
    let mut i: usize = 0;
    while i < attackers.len()
        invariant
            i <= attackers@.len() <= 65535,
            absorbed@.len() == attackers@.len(),
            absorbed@ == target,
            damage == unabsorbed_power(attackers@, absorbed@, i as int),
            -32768 * i <= damage <= 32767 * i,
        decreases attackers@.len() - i,
    {
        if !absorbed[i] {
            damage = damage + attackers[i].power as i32;
        }
        i = i + 1;
    }
    damage
}


/// Whether the defender could really absorb attacker `i`: it does not
/// trample, and some blocker can block it.
pub open spec fn absorbable(attackers: Seq<Permanent>, blockers: Seq<Permanent>, i: int) -> bool {
    &&& !attackers[i].holds(Keyword::Trample)
    &&& exists|b: int| 0 <= b < blockers.len() && blockable(#[trigger] blockers[b], attackers[i])
}

proof fn lemma_first_free_blocks(attacker: Permanent, blockers: Seq<Permanent>, used: Seq<bool>, from: int)
    requires
        0 <= from,
        first_free_blocker(attacker, blockers, used, from) < blockers.len(),
    ensures
        ({
            let slot = first_free_blocker(attacker, blockers, used, from);
            0 <= slot && !used[slot] && blockable(blockers[slot], attacker)
        }),
    decreases blockers.len() - from,
{
    if from < blockers.len() && !(!used[from] && blockable(blockers[from], attacker)) {
        lemma_first_free_blocks(attacker, blockers, used, from + 1);
    }
}

proof fn lemma_absorb_justified(
    attackers: Seq<Permanent>,
    blockers: Seq<Permanent>,
    order: Seq<int>,
    k: int,
    used: Seq<bool>,
    absorbed: Seq<bool>,
)
    requires
        forall|q: int| 0 <= q < order.len() ==> 0 <= #[trigger] order[q] < attackers.len(),
        absorbed.len() == attackers.len(),
        forall|i: int| 0 <= i < absorbed.len() && #[trigger] absorbed[i] ==> absorbable(attackers, blockers, i),
    ensures
        absorb(attackers, blockers, order, k, used, absorbed).len() == attackers.len(),
        forall|i: int|
            0 <= i < attackers.len() && #[trigger] absorb(attackers, blockers, order, k, used, absorbed)[i]
                ==> absorbable(attackers, blockers, i),
    decreases order.len() - k,
{
    if 0 <= k < order.len() {
        let index = order[k];
        let attacker = attackers[index];
        if !attacker.holds(Keyword::Trample) {
            let slot = first_free_blocker(attacker, blockers, used, 0);
            if slot < blockers.len() {
                lemma_first_free_blocks(attacker, blockers, used, 0);
                let marked = absorbed.update(index, true);
                assert forall|i: int| 0 <= i < marked.len() && #[trigger] marked[i] implies absorbable(
                    attackers,
                    blockers,
                    i,
                ) by {
                    if i == index {
                        assert(blockable(blockers[slot], attackers[i]));
                    }
                }
                lemma_absorb_justified(attackers, blockers, order, k + 1, used.update(slot, true), marked);
            } else {
                lemma_absorb_justified(attackers, blockers, order, k + 1, used, absorbed);
            }
        } else {
            lemma_absorb_justified(attackers, blockers, order, k + 1, used, absorbed);
        }
    }
}

proof fn lemma_power_order_bounds(attackers: Seq<Permanent>, n: int)
    requires
        0 <= n,
    ensures
        forall|q: int| 0 <= q < power_order(attackers, n).len() ==> 0 <= #[trigger] power_order(attackers, n)[q] < n,
        power_order(attackers, n).len() == n,
    decreases n,
{
    if n > 0 {
        lemma_power_order_bounds(attackers, n - 1);
        lemma_insert_by_power_members(attackers, power_order(attackers, n - 1), n - 1, n);
    }
}

proof fn lemma_insert_by_power_members(attackers: Seq<Permanent>, sorted: Seq<int>, index: int, bound: int)
    requires
        forall|q: int| 0 <= q < sorted.len() ==> 0 <= #[trigger] sorted[q] < bound,
        0 <= index < bound,
    ensures
        insert_by_power(attackers, sorted, index).len() == sorted.len() + 1,
        forall|q: int|
            0 <= q < insert_by_power(attackers, sorted, index).len() ==> 0 <= #[trigger] insert_by_power(
                attackers,
                sorted,
                index,
            )[q] < bound,
    decreases sorted.len(),
{
    if sorted.len() > 0 && !stays_ahead(attackers, sorted.last(), index) {
        lemma_insert_by_power_members(attackers, sorted.drop_last(), index, bound);
        let inner = insert_by_power(attackers, sorted.drop_last(), index);
        assert forall|q: int| 0 <= q < inner.push(sorted.last()).len() implies 0 <= #[trigger] inner.push(
            sorted.last(),
        )[q] < bound by {
            if q == inner.len() {
                assert(sorted[sorted.len() - 1] == sorted.last());
            }
        }
    }
}

/// The defender's best case never counts on a block that cannot happen: an
/// attacker is absorbed only when it does not trample and some blocker can
/// legally block it. Everything else always connects.
pub proof fn worst_case_only_absorbs_blockable(attackers: Seq<Permanent>, blockers: Seq<Permanent>)
    ensures
        ({
            let absorbed = absorb(
                attackers,
                blockers,
                power_order(attackers, attackers.len() as int),
                0,
                Seq::new(blockers.len(), |i: int| false),
                Seq::new(attackers.len(), |i: int| false),
            );
            &&& absorbed.len() == attackers.len()
            &&& forall|i: int| 0 <= i < attackers.len() && #[trigger] absorbed[i] ==> absorbable(attackers, blockers, i)
        }),
{
    lemma_power_order_bounds(attackers, attackers.len() as int);
    lemma_absorb_justified(
        attackers,
        blockers,
        power_order(attackers, attackers.len() as int),
        0,
        Seq::new(blockers.len(), |i: int| false),
        Seq::new(attackers.len(), |i: int| false),
    );
}

/// How many of the first `n` flags are set.
pub open spec fn count_set(flags: Seq<bool>, n: int) -> int
    decreases n,
{
    if n <= 0 {
        0
    } else {
        count_set(flags, n - 1) + if flags[n - 1] {
            1int
        } else {
            0int
        }
    }
}

/// How many of the first `n` blockers can block `attacker`.
pub open spec fn able_blockers(blockers: Seq<Permanent>, attacker: Permanent, n: int) -> int
    decreases n,
{
    if n <= 0 {
        0
    } else {
        able_blockers(blockers, attacker, n - 1) + if blockable(blockers[n - 1], attacker) {
            1int
        } else {
            0int
        }
    }
}

proof fn lemma_count_set_mark(flags: Seq<bool>, n: int, j: int)
    requires
        0 <= j < flags.len(),
        !flags[j],
        n <= flags.len(),
    ensures
        count_set(flags.update(j, true), n) == count_set(flags, n) + if j < n {
            1int
        } else {
            0int
        },
    decreases n,
{
    if n > 0 {
        lemma_count_set_mark(flags, n - 1, j);
    }
}

proof fn lemma_able_within_used(blockers: Seq<Permanent>, attacker: Permanent, used: Seq<bool>, n: int)
    requires
        n <= used.len(),
        forall|b: int| 0 <= b < n && blockable(#[trigger] blockers[b], attacker) ==> used[b],
    ensures
        able_blockers(blockers, attacker, n) <= count_set(used, n),
    decreases n,
{
    if n > 0 {
        lemma_able_within_used(blockers, attacker, used, n - 1);
    }
}

proof fn lemma_first_free_none(attacker: Permanent, blockers: Seq<Permanent>, used: Seq<bool>, from: int)
    requires
        0 <= from,
        first_free_blocker(attacker, blockers, used, from) >= blockers.len(),
    ensures
        forall|b: int| from <= b < blockers.len() && blockable(#[trigger] blockers[b], attacker) ==> used[b],
    decreases blockers.len() - from,
{
    if from < blockers.len() {
        lemma_first_free_none(attacker, blockers, used, from + 1);
    }
}

proof fn lemma_insert_by_power_elements(attackers: Seq<Permanent>, sorted: Seq<int>, index: int)
    requires
        forall|q: int, m: int| 0 <= q < m < sorted.len() ==> sorted[q] != sorted[m],
        !sorted.contains(index),
    ensures
        ({
            let result = insert_by_power(attackers, sorted, index);
            &&& result.contains(index)
            &&& forall|x: int| sorted.contains(x) ==> #[trigger] result.contains(x)
            &&& forall|x: int| #[trigger] result.contains(x) ==> x == index || sorted.contains(x)
            &&& forall|q: int, m: int| 0 <= q < m < result.len() ==> result[q] != result[m]
        }),
    decreases sorted.len(),
{
    let result = insert_by_power(attackers, sorted, index);
    if sorted.len() == 0 {
        assert(result[0] == index);
    } else if stays_ahead(attackers, sorted.last(), index) {
        assert(result =~= sorted.push(index));
        assert(result[sorted.len() as int] == index);
        assert forall|x: int| sorted.contains(x) implies #[trigger] result.contains(x) by {
            let q = choose|q: int| 0 <= q < sorted.len() && sorted[q] == x;
            assert(result[q] == x);
        }
        assert forall|x: int| #[trigger] result.contains(x) implies x == index || sorted.contains(x) by {
            let q = choose|q: int| 0 <= q < result.len() && result[q] == x;
            if q < sorted.len() {
                assert(sorted[q] == x);
            }
        }
        assert forall|q: int, m: int| 0 <= q < m < result.len() implies result[q] != result[m] by {
            if m == sorted.len() {
                assert(sorted.contains(result[q]));
            }
        }
    } else {
        let shorter = sorted.drop_last();
        let last = sorted.last();
        assert forall|q: int, m: int| 0 <= q < m < shorter.len() implies shorter[q] != shorter[m] by {
            assert(shorter[q] == sorted[q] && shorter[m] == sorted[m]);
        }
        assert(!shorter.contains(index)) by {
            if shorter.contains(index) {
                let q = choose|q: int| 0 <= q < shorter.len() && shorter[q] == index;
                assert(sorted[q] == index);
            }
        }
        lemma_insert_by_power_elements(attackers, shorter, index);
        let inner = insert_by_power(attackers, shorter, index);
        assert(result =~= inner.push(last));
        assert(!shorter.contains(last)) by {
            if shorter.contains(last) {
                let q = choose|q: int| 0 <= q < shorter.len() && shorter[q] == last;
                assert(sorted[q] == last && sorted[sorted.len() - 1] == last);
            }
        }
        assert(last != index) by {
            assert(sorted[sorted.len() - 1] == last);
        }
        assert(result[inner.len() as int] == last);
        assert forall|x: int| sorted.contains(x) implies #[trigger] result.contains(x) by {
            let q = choose|q: int| 0 <= q < sorted.len() && sorted[q] == x;
            if q < sorted.len() - 1 {
                assert(shorter[q] == x);
                assert(inner.contains(x));
                let r = choose|r: int| 0 <= r < inner.len() && inner[r] == x;
                assert(result[r] == x);
            }
        }
        assert(inner.contains(index));
        let r = choose|r: int| 0 <= r < inner.len() && inner[r] == index;
        assert(result[r] == index);
        assert forall|x: int| #[trigger] result.contains(x) implies x == index || sorted.contains(x) by {
            let q = choose|q: int| 0 <= q < result.len() && result[q] == x;
            if q < inner.len() {
                assert(inner[q] == x);
                assert(inner.contains(x));
                if x != index {
                    let p = choose|p: int| 0 <= p < shorter.len() && shorter[p] == x;
                    assert(sorted[p] == x);
                }
            } else {
                assert(sorted[sorted.len() - 1] == x);
            }
        }
        assert forall|q: int, m: int| 0 <= q < m < result.len() implies result[q] != result[m] by {
            if m == inner.len() {
                assert(result[q] == inner[q]);
                assert(inner.contains(inner[q]));
                if inner[q] != index {
                    assert(shorter.contains(inner[q]));
                }
            } else {
                assert(result[q] == inner[q] && result[m] == inner[m]);
            }
        }
    }
}

/// The power order lists every attacker exactly once.
proof fn lemma_power_order_permutes(attackers: Seq<Permanent>, n: int)
    requires
        0 <= n,
    ensures
        forall|i: int| 0 <= i < n ==> #[trigger] power_order(attackers, n).contains(i),
        forall|q: int, m: int| 0 <= q < m < power_order(attackers, n).len() ==> power_order(attackers, n)[q]
            != power_order(attackers, n)[m],
    decreases n,
{
    if n > 0 {
        let sorted = power_order(attackers, n - 1);
        lemma_power_order_permutes(attackers, n - 1);
        lemma_power_order_bounds(attackers, n - 1);
        assert(!sorted.contains(n - 1)) by {
            if sorted.contains(n - 1) {
                let q = choose|q: int| 0 <= q < sorted.len() && sorted[q] == n - 1;
            }
        }
        lemma_insert_by_power_elements(attackers, sorted, n - 1);
        assert forall|i: int| 0 <= i < n implies #[trigger] power_order(attackers, n).contains(i) by {
            if i < n - 1 {
                assert(sorted.contains(i));
            }
        }
    }
}

/// Walking the order from `k`, the defender keeps one used blocker per
/// absorbed attacker, and every attacker already passed that it left
/// unabsorbed and that does not trample has no unused blocker able to block
/// it; so at the end such an attacker has no more able blockers than there
/// are absorbed attackers.
proof fn lemma_absorb_maximal(
    attackers: Seq<Permanent>,
    blockers: Seq<Permanent>,
    order: Seq<int>,
    k: int,
    used: Seq<bool>,
    absorbed: Seq<bool>,
)
    requires
        0 <= k <= order.len(),
        forall|q: int| 0 <= q < order.len() ==> 0 <= #[trigger] order[q] < attackers.len(),
        forall|q: int, m: int| 0 <= q < m < order.len() ==> order[q] != order[m],
        used.len() == blockers.len(),
        absorbed.len() == attackers.len(),
        count_set(used, used.len() as int) == count_set(absorbed, absorbed.len() as int),
        forall|q: int| k <= q < order.len() ==> !absorbed[#[trigger] order[q]],
        forall|q: int, b: int|
            0 <= q < k && !absorbed[order[q]] && !attackers[order[q]].holds(Keyword::Trample) && 0 <= b
                < blockers.len() && #[trigger] blockable(blockers[b], attackers[#[trigger] order[q]]) ==> used[b],
    ensures
        ({
            let result = absorb(attackers, blockers, order, k, used, absorbed);
            forall|q: int|
                0 <= q < order.len() && !result[#[trigger] order[q]] && !attackers[order[q]].holds(Keyword::Trample)
                    ==> able_blockers(blockers, attackers[order[q]], blockers.len() as int) <= count_set(
                    result,
                    attackers.len() as int,
                )
        }),
    decreases order.len() - k,
{
    if k == order.len() {
        assert forall|q: int|
            0 <= q < order.len() && !absorbed[#[trigger] order[q]] && !attackers[order[q]].holds(Keyword::Trample)
                implies able_blockers(blockers, attackers[order[q]], blockers.len() as int) <= count_set(
            absorbed,
            attackers.len() as int,
        ) by {
            assert forall|b: int| 0 <= b < blockers.len() && blockable(#[trigger] blockers[b], attackers[order[q]])
                implies used[b] by {
            }
            lemma_able_within_used(blockers, attackers[order[q]], used, blockers.len() as int);
        }
    } else {
        let index = order[k];
        let attacker = attackers[index];
        if attacker.holds(Keyword::Trample) {
            lemma_absorb_maximal(attackers, blockers, order, k + 1, used, absorbed);
        } else {
            let slot = first_free_blocker(attacker, blockers, used, 0);
            if slot < blockers.len() {
                lemma_first_free_blocks(attacker, blockers, used, 0);
                let used2 = used.update(slot, true);
                let absorbed2 = absorbed.update(index, true);
                lemma_count_set_mark(used, used.len() as int, slot);
                lemma_count_set_mark(absorbed, absorbed.len() as int, index);
                assert forall|q: int| k + 1 <= q < order.len() implies !absorbed2[#[trigger] order[q]] by {
                    assert(order[q] != order[k]);
                }
                assert forall|q: int, b: int|
                    0 <= q < k + 1 && !absorbed2[order[q]] && !attackers[order[q]].holds(Keyword::Trample) && 0
                        <= b < blockers.len() && #[trigger] blockable(blockers[b], attackers[#[trigger] order[q]])
                        implies used2[b] by {
                    if q < k {
                        assert(order[q] != index);
                        assert(used[b]);
                    }
                }
                lemma_absorb_maximal(attackers, blockers, order, k + 1, used2, absorbed2);
            } else {
                lemma_first_free_none(attacker, blockers, used, 0);
                assert forall|q: int, b: int|
                    0 <= q < k + 1 && !absorbed[order[q]] && !attackers[order[q]].holds(Keyword::Trample) && 0
                        <= b < blockers.len() && #[trigger] blockable(blockers[b], attackers[#[trigger] order[q]])
                        implies used[b] by {
                }
                lemma_absorb_maximal(attackers, blockers, order, k + 1, used, absorbed);
            }
        }
    }
}

proof fn lemma_count_set_none(n: int, len: nat)
    requires
        0 <= n <= len,
    ensures
        count_set(Seq::new(len, |i: int| false), n) == 0,
    decreases n,
{
    if n > 0 {
        lemma_count_set_none(n - 1, len);
    }
}

/// The defender's best case blocks as much as it can: an attacker it leaves
/// unabsorbed either tramples or has no more blockers able to block it than
/// there are absorbed attackers, each of which took a blocker of its own. So
/// no blocker that could have stopped it is left standing idle.
pub proof fn worst_case_blocks_maximally(attackers: Seq<Permanent>, blockers: Seq<Permanent>)
    ensures
        ({
            let absorbed = absorb(
                attackers,
                blockers,
                power_order(attackers, attackers.len() as int),
                0,
                Seq::new(blockers.len(), |i: int| false),
                Seq::new(attackers.len(), |i: int| false),
            );
            forall|i: int|
                0 <= i < attackers.len() && !#[trigger] absorbed[i] && !attackers[i].holds(Keyword::Trample)
                    ==> able_blockers(blockers, attackers[i], blockers.len() as int) <= count_set(
                    absorbed,
                    attackers.len() as int,
                )
        }),
{
    let n = attackers.len() as int;
    let order = power_order(attackers, n);
    let used = Seq::new(blockers.len(), |i: int| false);
    let none = Seq::new(attackers.len(), |i: int| false);
    lemma_power_order_bounds(attackers, n);
    lemma_power_order_permutes(attackers, n);
    lemma_count_set_none(blockers.len() as int, blockers.len());
    lemma_count_set_none(n, attackers.len());
    lemma_absorb_maximal(attackers, blockers, order, 0, used, none);
    let absorbed = absorb(attackers, blockers, order, 0, used, none);
    assert forall|i: int|
        0 <= i < n && !#[trigger] absorbed[i] && !attackers[i].holds(Keyword::Trample) implies able_blockers(
        blockers,
        attackers[i],
        blockers.len() as int,
    ) <= count_set(absorbed, n) by {
        assert(order.contains(i));
        let q = choose|q: int| 0 <= q < order.len() && order[q] == i;
        assert(!absorbed[order[q]]);
    }
}

} // verus!
