//! The fail-closed parts of scoring a candidate against a roster split.
//!
//! Coverage is checked before anything is scored: if an arm does not
//! reproduce the roster's cell set exactly, with no missing cell, no extra
//! cell, and every candidate cell paired to a reference cell, the sweep
//! reports zero rather than a partial result. The paired bootstrap draws its
//! resampling indices from a fixed-seed generator, so two runs of the same
//! sweep agree.

use vstd::prelude::*;
use vstd::arithmetic::div_mod::lemma_fundamental_div_mod_converse;
use crate::roster::{
    cell_id_view, cell_views, cells_match_cell_count, lemma_cell_position, opponent_views, pair_key_view,
    surface_cell_ids_are_distinct, surface_cells, Cell, CellView, Entrant, Opponent, Surface,
};
use crate::deck_match::{DeckMatchResult, DeckMatchTermination, EngineFinding};
use crate::planner::board::PlayerId;
use crate::matchup::copy_findings;
use crate::text::{
    push_text, text_eq, no_bar, insert_sorted, lemma_empty_listing, lemma_is_sorted_listing, lemma_push_to_set, lemma_sorted_len, member, sorted_listing, string_views,
    strictly_sorted,
};

verus! {

/// Resampling draws for the paired bootstrap.
pub const BOOTSTRAP_DRAWS: u32 = 2_000;

/// Fixed resampling seed. A verdict that changes between two runs of the
/// same data is not a verdict.
pub const BOOTSTRAP_SEED: u64 = 0x5EED_C0DE_1234_5678;

/// Whether the sweep reproduced the roster's cell set exactly.
#[derive(Clone, Debug)]
pub struct Coverage {
    pub expected: usize,
    pub candidate_produced: usize,
    pub reference_produced: usize,
    pub missing: Vec<String>,
    pub unexpected: Vec<String>,
    /// Candidate cells with no reference cell at the same shared coordinate.
    pub unpaired: Vec<String>,
    /// A stall rate past the ceiling on either arm.
    pub stall_failures: Vec<String>,
}

impl Default for Coverage {
    fn default() -> (coverage: Self)
        ensures
            coverage.expected == 0,
            coverage.candidate_produced == 0,
            coverage.reference_produced == 0,
            coverage.missing@.len() == 0,
            coverage.unexpected@.len() == 0,
            coverage.unpaired@.len() == 0,
            coverage.stall_failures@.len() == 0,
    {
        Coverage {
            expected: 0,
            candidate_produced: 0,
            reference_produced: 0,
            missing: Vec::new(),
            unexpected: Vec::new(),
            unpaired: Vec::new(),
            stall_failures: Vec::new(),
        }
    }
}

/// A complete coverage: something was expected, both arms produced exactly
/// that many distinct cells, and nothing is missing, unexpected, unpaired
/// or stalled past the ceiling.
pub open spec fn is_complete_view(coverage: Coverage) -> bool {
    &&& coverage.expected > 0
    &&& coverage.candidate_produced == coverage.expected
    &&& coverage.reference_produced == coverage.expected
    &&& coverage.missing@.len() == 0
    &&& coverage.unexpected@.len() == 0
    &&& coverage.unpaired@.len() == 0
    &&& coverage.stall_failures@.len() == 0
}

impl Coverage {
    /// Whether the sweep may be scored at all.
    pub fn is_complete(&self) -> (complete: bool)
        ensures
            complete == is_complete_view(*self),
    {
        self.expected > 0 && self.candidate_produced == self.expected && self.reference_produced == self.expected
            && self.missing.len() == 0 && self.unexpected.len() == 0 && self.unpaired.len() == 0
            && self.stall_failures.len() == 0
    }
}

/// One xorshift64 step: shift-xor by 12 right, 25 left, 27 right.
pub open spec fn resampler_step(state: u64) -> u64 {
    let a = state ^ (state >> 12u64);
    let b = a ^ (a << 25u64);
    b ^ (b >> 27u64)
}

/// The multiplier that scrambles a state into an output.
pub const RESAMPLER_MULTIPLIER: u64 = 0x2545_F491_4F6C_DD1D;

/// The index a state yields for `bound`: the state times the multiplier,
/// modulo two to the sixty-four, its top fifty-three bits, modulo `bound`.
pub open spec fn resampler_index(state: u64, bound: usize) -> usize {
    let value = ((state as int * RESAMPLER_MULTIPLIER as int) % 0x1_0000_0000_0000_0000) as u64;
    ((value >> 11u64) as usize) % bound
}

/// The bootstrap's resampling state: an xorshift step and a multiplier, seeded by
/// the caller, so two runs over the same data draw the same indices.
pub struct Resampler(pub u64);

impl Resampler {
    /// Advances the generator and draws an index below `bound`.
    pub fn next_index(&mut self, bound: usize) -> (index: usize)
        requires
            bound > 0,
        ensures
            final(self).0 == resampler_step(old(self).0),
            index == resampler_index(final(self).0, bound),
            index < bound,
    {
        self.0 = self.0 ^ (self.0 >> 12u64);
        self.0 = self.0 ^ (self.0 << 25u64);
        self.0 = self.0 ^ (self.0 >> 27u64);
        let value = self.0.wrapping_mul(RESAMPLER_MULTIPLIER);
        proof {
            assert(value == ((self.0 as int * RESAMPLER_MULTIPLIER as int) % 0x1_0000_0000_0000_0000) as u64);
        }
        ((value >> 11u64) as usize) % bound
    }
}

/// The full ids of a list of cells.
pub open spec fn ids_of(cells: Seq<CellView>) -> Seq<Seq<char>> {
    cells.map_values(|cell: CellView| cell_id_view(cell))
}

/// The pair keys of a list of cells.
pub open spec fn keys_of(cells: Seq<CellView>) -> Seq<Seq<char>> {
    cells.map_values(|cell: CellView| pair_key_view(cell))
}

/// The first `n` of `keys` that are not in `paired`, in order.
pub open spec fn unpaired_keys(keys: Seq<Seq<char>>, paired: Set<Seq<char>>, n: int) -> Seq<Seq<char>>
    decreases n,
{
    if n <= 0 {
        Seq::empty()
    } else if paired.contains(keys[n - 1]) {
        unpaired_keys(keys, paired, n - 1)
    } else {
        unpaired_keys(keys, paired, n - 1).push(keys[n - 1])
    }
}

/// Every cell an entrant must cover on a surface.
pub open spec fn expected_cells(surface: Surface, entrant: Entrant) -> Seq<CellView> {
    surface_cells(entrant, opponent_views(surface.opponents@), surface.seeds as nat, surface.opponents@.len() as int)
}

/// The ids `expected` names that `produced` lacks, in increasing order.
pub open spec fn lacking(expected: Seq<CellView>, produced: Seq<CellView>) -> Seq<Seq<char>> {
    sorted_listing(ids_of(expected).to_set().difference(ids_of(produced).to_set()))
}

/// The full ids of a list of cells, computed.
fn cell_ids(cells: &Vec<Cell>) -> (ids: Vec<String>)
    ensures
        string_views(ids@) == ids_of(cell_views(cells@)),
{
    let mut ids: Vec<String> = Vec::new();
    let mut i: usize = 0;
    while i < cells.len()
        invariant
            i <= cells@.len(),
            string_views(ids@) == ids_of(cell_views(cells@)).take(i as int),
        decreases cells@.len() - i,
    {
        let id = cells[i].cell_id();
        let ghost before = ids@;
        ids.push(id);
        proof {
            assert(ids@ =~= before.push(id));
            assert(string_views(ids@) =~= string_views(before).push(id@));
            assert(cell_views(cells@)[i as int] == cells@[i as int]@);
            assert(string_views(ids@) =~= ids_of(cell_views(cells@)).take(i + 1));
        }
        i = i + 1;
    }
    assert(ids_of(cell_views(cells@)).take(cells@.len() as int) =~= ids_of(cell_views(cells@)));
    ids
}

/// The pair keys of a list of cells, computed.
fn pair_keys(cells: &Vec<Cell>) -> (keys: Vec<String>)
    ensures
        string_views(keys@) == keys_of(cell_views(cells@)),
{
    let mut keys: Vec<String> = Vec::new();
    let mut i: usize = 0;
    while i < cells.len()
        invariant
            i <= cells@.len(),
            string_views(keys@) == keys_of(cell_views(cells@)).take(i as int),
        decreases cells@.len() - i,
    {
        let key = cells[i].pair_key();
        let ghost before = keys@;
        keys.push(key);
        proof {
            assert(keys@ =~= before.push(key));
            assert(string_views(keys@) =~= string_views(before).push(key@));
            assert(cell_views(cells@)[i as int] == cells@[i as int]@);
            assert(string_views(keys@) =~= keys_of(cell_views(cells@)).take(i + 1));
        }
        i = i + 1;
    }
    assert(keys_of(cell_views(cells@)).take(cells@.len() as int) =~= keys_of(cell_views(cells@)));
    keys
}

/// The items of `from` not in `without`, in strictly increasing order.
fn sorted_difference(from: &Vec<String>, without: &Vec<String>) -> (difference: Vec<String>)
    ensures
        strictly_sorted(string_views(difference@)),
        string_views(difference@).to_set() == string_views(from@).to_set().difference(
            string_views(without@).to_set(),
        ),
{
    let mut difference: Vec<String> = Vec::new();
    let mut i: usize = 0;
    while i < from.len()
        invariant
            i <= from@.len(),
            strictly_sorted(string_views(difference@)),
            string_views(difference@).to_set() == string_views(from@).take(i as int).to_set().difference(
                string_views(without@).to_set(),
            ),
        decreases from@.len() - i,
    {
        let item = &from[i];
        let present = member(without, item.as_str());
        let ghost before = string_views(difference@);
        if !present {
            insert_sorted(&mut difference, item.clone());
        }
        proof {
            let taken = string_views(from@).take(i + 1);
            assert(taken =~= string_views(from@).take(i as int).push(item@));
            lemma_push_to_set(string_views(from@).take(i as int), item@);
            assert(string_views(without@).to_set().contains(item@) == present);
            assert(string_views(difference@).to_set() =~= taken.to_set().difference(
                string_views(without@).to_set(),
            ));
        }
        i = i + 1;
    }
    assert(string_views(from@).take(from@.len() as int) =~= string_views(from@));
    difference
}

/// How many distinct items `texts` holds.
fn distinct_count(texts: &Vec<String>) -> (count: usize)
    ensures
        count == string_views(texts@).to_set().len(),
{
    let mut sorted: Vec<String> = Vec::new();
    let mut i: usize = 0;
    while i < texts.len()
        invariant
            i <= texts@.len(),
            strictly_sorted(string_views(sorted@)),
            string_views(sorted@).to_set() == string_views(texts@).take(i as int).to_set(),
        decreases texts@.len() - i,
    {
        insert_sorted(&mut sorted, texts[i].clone());
        proof {
            let taken = string_views(texts@).take(i + 1);
            assert(taken =~= string_views(texts@).take(i as int).push(texts@[i as int]@));
            lemma_push_to_set(string_views(texts@).take(i as int), texts@[i as int]@);
        }
        i = i + 1;
    }
    assert(string_views(texts@).take(texts@.len() as int) =~= string_views(texts@));
    proof {
        lemma_sorted_len(string_views(sorted@));
    }
    sorted.len()
}

/// `first` followed by `second`.
fn concatenated(first: Vec<String>, second: Vec<String>) -> (all: Vec<String>)
    ensures
        string_views(all@) == string_views(first@) + string_views(second@),
{
    let mut all = first;
    let mut rest = second;
    all.append(&mut rest);
    assert(string_views(all@) =~= string_views(first@) + string_views(second@));
    all
}

/// Checks that both arms reproduced the surface's cell set exactly.
///
/// `candidate_cells` and `reference_cells` are the cells each arm actually
/// produced, in play order; `stall_failures` are the arms whose stall rate
/// passed the ceiling, already described.
pub fn coverage(
    surface: &Surface,
    candidate: &Entrant,
    candidate_cells: &Vec<Cell>,
    reference: &Entrant,
    reference_cells: &Vec<Cell>,
    stall_failures: Vec<String>,
) -> (coverage: Coverage)
    ensures
        coverage.expected == expected_cells(*surface, *candidate).len(),
        coverage.candidate_produced == ids_of(cell_views(candidate_cells@)).to_set().len(),
        coverage.reference_produced == ids_of(cell_views(reference_cells@)).to_set().len(),
        string_views(coverage.missing@) == lacking(expected_cells(*surface, *candidate), cell_views(candidate_cells@))
            + lacking(expected_cells(*surface, *reference), cell_views(reference_cells@)),
        string_views(coverage.unexpected@) == lacking(cell_views(candidate_cells@), expected_cells(*surface, *candidate))
            + lacking(cell_views(reference_cells@), expected_cells(*surface, *reference)),
        string_views(coverage.unpaired@) == unpaired_keys(
            keys_of(cell_views(candidate_cells@)),
            keys_of(cell_views(reference_cells@)).to_set(),
            candidate_cells@.len() as int,
        ),
        coverage.stall_failures@ == stall_failures@,
{
    let expected_candidate = surface.cells(candidate);
    let expected_reference = surface.cells(reference);
    let expected_candidate_ids = cell_ids(&expected_candidate);
    let expected_reference_ids = cell_ids(&expected_reference);
    let produced_candidate_ids = cell_ids(candidate_cells);
    let produced_reference_ids = cell_ids(reference_cells);

    let missing_candidate = sorted_difference(&expected_candidate_ids, &produced_candidate_ids);
    let missing_reference = sorted_difference(&expected_reference_ids, &produced_reference_ids);
    let unexpected_candidate = sorted_difference(&produced_candidate_ids, &expected_candidate_ids);
    let unexpected_reference = sorted_difference(&produced_reference_ids, &expected_reference_ids);
    proof {
        lemma_is_sorted_listing(string_views(missing_candidate@));
        lemma_is_sorted_listing(string_views(missing_reference@));
        lemma_is_sorted_listing(string_views(unexpected_candidate@));
        lemma_is_sorted_listing(string_views(unexpected_reference@));
    }

    let reference_keys = pair_keys(reference_cells);
    let candidate_keys = pair_keys(candidate_cells);
    assert(string_views(candidate_keys@).len() == candidate_keys@.len());
    assert(string_views(expected_candidate_ids@).len() == expected_candidate_ids@.len());
    let mut unpaired: Vec<String> = Vec::new();
    let mut i: usize = 0;
    while i < candidate_keys.len()
        invariant
            i <= candidate_keys@.len(),
            candidate_keys@.len() == candidate_cells@.len(),
            string_views(candidate_keys@) == keys_of(cell_views(candidate_cells@)),
            string_views(reference_keys@) == keys_of(cell_views(reference_cells@)),
            string_views(unpaired@) == unpaired_keys(
                keys_of(cell_views(candidate_cells@)),
                keys_of(cell_views(reference_cells@)).to_set(),
                i as int,
            ),
        decreases candidate_keys@.len() - i,
    {
        let key = &candidate_keys[i];
        if !member(&reference_keys, key.as_str()) {
            unpaired.push(key.clone());
            proof {
                assert(string_views(unpaired@) =~= unpaired_keys(
                    keys_of(cell_views(candidate_cells@)),
                    keys_of(cell_views(reference_cells@)).to_set(),
                    i + 1,
                ));
            }
        }
        i = i + 1;
    }

    Coverage {
        expected: expected_candidate_ids.len(),
        candidate_produced: distinct_count(&produced_candidate_ids),
        reference_produced: distinct_count(&produced_reference_ids),
        missing: concatenated(missing_candidate, missing_reference),
        unexpected: concatenated(unexpected_candidate, unexpected_reference),
        unpaired,
        stall_failures,
    }
}


// ---------------------------------------------------------------------------
// Laws of coverage
// ---------------------------------------------------------------------------

proof fn lemma_nothing_lacking(cells: Seq<CellView>)
    ensures
        lacking(cells, cells) == Seq::<Seq<char>>::empty(),
{
    let none = Seq::<Seq<char>>::empty();
    lemma_is_sorted_listing(none);
    assert(ids_of(cells).to_set().difference(ids_of(cells).to_set()) =~= none.to_set());
}

proof fn lemma_all_paired(keys: Seq<Seq<char>>, paired: Set<Seq<char>>, n: int)
    requires
        0 <= n <= keys.len(),
        forall|k: int| 0 <= k < n ==> paired.contains(#[trigger] keys[k]),
    ensures
        unpaired_keys(keys, paired, n) == Seq::<Seq<char>>::empty(),
    decreases n,
{
    if n > 0 {
        lemma_all_paired(keys, paired, n - 1);
    }
}

/// Both arms of a surface share every coordinate but the candidate's half:
/// cell `k` of one arm has the pair key of cell `k` of the other.
proof fn lemma_arms_share_keys(surface: Surface, candidate: Entrant, reference: Entrant, k: int)
    requires
        0 <= k < expected_cells(surface, candidate).len(),
    ensures
        expected_cells(surface, candidate).len() == expected_cells(surface, reference).len(),
        pair_key_view(expected_cells(surface, candidate)[k]) == pair_key_view(expected_cells(surface, reference)[k]),
{
    let opponents = opponent_views(surface.opponents@);
    let n = surface.opponents@.len() as int;
    let seeds = surface.seeds as nat;
    cells_match_cell_count(candidate, opponents, seeds, n);
    cells_match_cell_count(reference, opponents, seeds, n);
    let left = lemma_cell_position(candidate, opponents, seeds, n, k);
    let right = lemma_cell_position(reference, opponents, seeds, n, k);
    lemma_position_unique(seeds as int, left.0, left.1, left.2, right.0, right.1, right.2);
}

/// A position `o * 2 * seeds + s * seeds + d` with `s < 2` and `d < seeds`
/// determines `o`, `s` and `d`.
proof fn lemma_position_unique(seeds: int, o1: int, s1: int, d1: int, o2: int, s2: int, d2: int)
    requires
        0 <= o1,
        0 <= o2,
        0 <= s1 < 2,
        0 <= s2 < 2,
        0 <= d1 < seeds,
        0 <= d2 < seeds,
        o1 * 2 * seeds + s1 * seeds + d1 == o2 * 2 * seeds + s2 * seeds + d2,
    ensures
        o1 == o2,
        s1 == s2,
        d1 == d2,
{
    let x = o1 * 2 * seeds + s1 * seeds + d1;
    assert(x == (2 * o1 + s1) * seeds + d1) by (nonlinear_arith)
        requires
            x == o1 * 2 * seeds + s1 * seeds + d1,
    ;
    assert(x == (2 * o2 + s2) * seeds + d2) by (nonlinear_arith)
        requires
            x == o2 * 2 * seeds + s2 * seeds + d2,
    ;
    lemma_fundamental_div_mod_converse(x, seeds, 2 * o1 + s1, d1);
    lemma_fundamental_div_mod_converse(x, seeds, 2 * o2 + s2, d2);
    let p = 2 * o1 + s1;
    assert(p == o1 * 2 + s1);
    assert(p == o2 * 2 + s2);
    lemma_fundamental_div_mod_converse(p, 2, o1, s1);
    lemma_fundamental_div_mod_converse(p, 2, o2, s2);
}

/// Opponents with distinct ids, none of whose ids or decks holds the `|`
/// separator.
pub open spec fn opponents_are_plain(opponents: Seq<Opponent>) -> bool {
    &&& forall|a: int, b: int| 0 <= a < b < opponents.len() ==> #[trigger] opponents[a].id@ != #[trigger] opponents[b].id@
    &&& forall|a: int| 0 <= a < opponents.len() ==> #[trigger] no_bar(opponents[a].id@) && no_bar(opponents[a].deck@)
}

/// The ids of a surface's cells for one entrant are all distinct.
proof fn lemma_expected_ids_distinct(surface: Surface, entrant: Entrant)
    requires
        opponents_are_plain(surface.opponents@),
        no_bar(entrant.deck@),
    ensures
        ids_of(expected_cells(surface, entrant)).to_set().len() == expected_cells(surface, entrant).len(),
{
    let opponents = opponent_views(surface.opponents@);
    let cells = expected_cells(surface, entrant);
    let ids = ids_of(cells);
    assert forall|a: int, b: int| 0 <= a < b < opponents.len() implies #[trigger] opponents[a].0
        != #[trigger] opponents[b].0 by {
        assert(opponents[a].0 == surface.opponents@[a].id@);
        assert(opponents[b].0 == surface.opponents@[b].id@);
    }
    assert forall|a: int| 0 <= a < opponents.len() implies no_bar(#[trigger] opponents[a].0) && no_bar(
        opponents[a].1,
    ) by {
        assert(opponents[a].0 == surface.opponents@[a].id@);
    }
    assert forall|i: int, j: int| 0 <= i < ids.len() && 0 <= j < ids.len() && i != j implies ids[i] != ids[j] by {
        if i < j {
            surface_cell_ids_are_distinct(entrant, opponents, surface.seeds as nat, i, j);
        } else {
            surface_cell_ids_are_distinct(entrant, opponents, surface.seeds as nat, j, i);
        }
    }
    ids.unique_seq_to_set();
}

/// Two arms that each played exactly the surface's cells are fully covered:
/// nothing is missing or unexpected, each arm produced as many distinct
/// cells as the surface has, and every candidate cell pairs with a reference
/// cell. So, with no stall failure and at least one cell, the sweep scores.
/// This holds when the opponents' ids are distinct and no deck or opponent
/// identifier holds the `|` separator.
pub proof fn exact_arms_are_covered(
    surface: Surface,
    candidate: Entrant,
    reference: Entrant,
    candidate_cells: Seq<Cell>,
    reference_cells: Seq<Cell>,
)
    requires
        cell_views(candidate_cells) == expected_cells(surface, candidate),
        cell_views(reference_cells) == expected_cells(surface, reference),
        opponents_are_plain(surface.opponents@),
        no_bar(candidate.deck@),
        no_bar(reference.deck@),
    ensures
        lacking(expected_cells(surface, candidate), cell_views(candidate_cells)) == Seq::<Seq<char>>::empty(),
        lacking(expected_cells(surface, reference), cell_views(reference_cells)) == Seq::<Seq<char>>::empty(),
        lacking(cell_views(candidate_cells), expected_cells(surface, candidate)) == Seq::<Seq<char>>::empty(),
        lacking(cell_views(reference_cells), expected_cells(surface, reference)) == Seq::<Seq<char>>::empty(),
        ids_of(cell_views(candidate_cells)).to_set().len() == expected_cells(surface, candidate).len(),
        ids_of(cell_views(reference_cells)).to_set().len() == expected_cells(surface, candidate).len(),
        unpaired_keys(
            keys_of(cell_views(candidate_cells)),
            keys_of(cell_views(reference_cells)).to_set(),
            candidate_cells.len() as int,
        ) == Seq::<Seq<char>>::empty(),
{
    lemma_nothing_lacking(expected_cells(surface, candidate));
    lemma_nothing_lacking(expected_cells(surface, reference));
    lemma_expected_ids_distinct(surface, candidate);
    lemma_expected_ids_distinct(surface, reference);
    let expected = expected_cells(surface, candidate);
    let keys = keys_of(cell_views(candidate_cells));
    let paired = keys_of(cell_views(reference_cells));
    if expected.len() > 0 {
        lemma_arms_share_keys(surface, candidate, reference, 0);
    } else {
        let opponents = opponent_views(surface.opponents@);
        cells_match_cell_count(candidate, opponents, surface.seeds as nat, surface.opponents@.len() as int);
        cells_match_cell_count(reference, opponents, surface.seeds as nat, surface.opponents@.len() as int);
    }
    assert forall|k: int| 0 <= k < candidate_cells.len() implies paired.to_set().contains(#[trigger] keys[k]) by {
        lemma_arms_share_keys(surface, candidate, reference, k);
        assert(keys[k] == pair_key_view(expected[k]));
        assert(paired[k] == pair_key_view(expected_cells(surface, reference)[k]));
    }
    lemma_all_paired(keys, paired.to_set(), candidate_cells.len() as int);
}



proof fn lemma_unpaired_empty(keys: Seq<Seq<char>>, paired: Set<Seq<char>>, n: int)
    requires
        0 <= n <= keys.len(),
        unpaired_keys(keys, paired, n).len() == 0,
    ensures
        forall|k: int| 0 <= k < n ==> paired.contains(#[trigger] keys[k]),
    decreases n,
{
    if n > 0 {
        if !paired.contains(keys[n - 1]) {
            assert(unpaired_keys(keys, paired, n).len() == unpaired_keys(keys, paired, n - 1).len() + 1);
        }
        lemma_unpaired_empty(keys, paired, n - 1);
    }
}

/// Nothing lacking either way means the same set of ids.
proof fn lemma_nothing_lacking_either_way(expected: Seq<CellView>, produced: Seq<CellView>)
    requires
        lacking(expected, produced).len() == 0,
        lacking(produced, expected).len() == 0,
    ensures
        ids_of(produced).to_set() == ids_of(expected).to_set(),
{
    let e = ids_of(expected).to_set();
    let p = ids_of(produced).to_set();
    assert(e.difference(p).subset_of(ids_of(expected).to_set()));
    assert(p.difference(e).subset_of(ids_of(produced).to_set()));
    lemma_empty_listing(ids_of(expected), e.difference(p));
    lemma_empty_listing(ids_of(produced), p.difference(e));
    assert forall|x: Seq<char>| e.contains(x) implies p.contains(x) by {
        if !p.contains(x) {
            assert(e.difference(p).contains(x));
        }
    }
    assert forall|x: Seq<char>| p.contains(x) implies e.contains(x) by {
        if !e.contains(x) {
            assert(p.difference(e).contains(x));
        }
    }
    assert(p =~= e);
}

/// Coverage fails closed: when nothing is missing and nothing unexpected,
/// each arm produced exactly the ids of the surface's cells for its
/// entrant, and when nothing is unpaired, every candidate cell has a
/// reference cell at its shared coordinate. A sweep that ran anything other
/// than the roster's surface is never complete.
pub proof fn clean_coverage_means_exact_arms(
    surface: Surface,
    candidate: Entrant,
    reference: Entrant,
    candidate_cells: Seq<Cell>,
    reference_cells: Seq<Cell>,
)
    requires
        (lacking(expected_cells(surface, candidate), cell_views(candidate_cells)) + lacking(
            expected_cells(surface, reference),
            cell_views(reference_cells),
        )).len() == 0,
        (lacking(cell_views(candidate_cells), expected_cells(surface, candidate)) + lacking(
            cell_views(reference_cells),
            expected_cells(surface, reference),
        )).len() == 0,
        unpaired_keys(
            keys_of(cell_views(candidate_cells)),
            keys_of(cell_views(reference_cells)).to_set(),
            candidate_cells.len() as int,
        ).len() == 0,
    ensures
        ids_of(cell_views(candidate_cells)).to_set() == ids_of(expected_cells(surface, candidate)).to_set(),
        ids_of(cell_views(reference_cells)).to_set() == ids_of(expected_cells(surface, reference)).to_set(),
        forall|k: int|
            0 <= k < candidate_cells.len() ==> keys_of(cell_views(reference_cells)).to_set().contains(
                #[trigger] keys_of(cell_views(candidate_cells))[k],
            ),
{
    lemma_nothing_lacking_either_way(expected_cells(surface, candidate), cell_views(candidate_cells));
    lemma_nothing_lacking_either_way(expected_cells(surface, reference), cell_views(reference_cells));
    lemma_unpaired_empty(
        keys_of(cell_views(candidate_cells)),
        keys_of(cell_views(reference_cells)).to_set(),
        candidate_cells.len() as int,
    );
}

// ---------------------------------------------------------------------------
// Cell outcomes and the per-opponent counts
// ---------------------------------------------------------------------------

/// What one cell produced.
#[derive(Clone, Debug)]
pub struct CellOutcome {
    pub cell: Cell,
    /// Whether the entrant won: its score is a win's when it won, a draw's
    /// when the game was drawn, and nothing otherwise.
    pub won: bool,
    /// Whether the game reached a winner. Draws and stalls are not decided.
    pub decided: bool,
    pub drawn: bool,
    /// The game did not reach a rules-valid terminal state within the bounds.
    pub stalled: bool,
    pub turns: u32,
    /// Proposals the engine refused. Any nonzero value contaminates the cell.
    pub rejected_moves: u32,
    pub engine_findings: Vec<EngineFinding>,
    /// Why a cell failed to reach a rules-valid terminal state.
    pub termination_detail: Option<String>,
}

impl CellOutcome {
    /// A clean cell: nothing refused, no finding, no stall.
    pub fn is_clean(&self) -> (clean: bool)
        ensures
            clean == (self.rejected_moves == 0 && self.engine_findings@.len() == 0 && !self.stalled),
    {
        self.rejected_moves == 0 && self.engine_findings.len() == 0 && !self.stalled
    }
}

/// One arm's complete result over a surface.
#[derive(Clone, Debug)]
pub struct Arm {
    pub entrant: Entrant,
    pub outcomes: Vec<CellOutcome>,
}

/// A copy of a cell, field for field.
pub fn copy_cell(cell: &Cell) -> (copy: Cell)
    ensures
        copy == *cell,
{
    Cell {
        candidate_deck: cell.candidate_deck.clone(),
        candidate_pilot: cell.candidate_pilot.clone(),
        opponent_id: cell.opponent_id.clone(),
        opponent_deck: cell.opponent_deck.clone(),
        seat: cell.seat,
        seed: cell.seed,
    }
}

/// The cells of a list of outcomes.
pub open spec fn outcome_cells(outcomes: Seq<CellOutcome>) -> Seq<Cell> {
    outcomes.map_values(|outcome: CellOutcome| outcome.cell)
}

impl Arm {
    /// The cells this arm played, in order.
    pub fn cells(&self) -> (cells: Vec<Cell>)
        ensures
            cells@ == outcome_cells(self.outcomes@),
    {
        let mut cells: Vec<Cell> = Vec::new();
        let mut i: usize = 0;
        while i < self.outcomes.len()
            invariant
                i <= self.outcomes@.len(),
                cells@ == outcome_cells(self.outcomes@).take(i as int),
            decreases self.outcomes@.len() - i,
        {
            cells.push(copy_cell(&self.outcomes[i].cell));
            assert(cells@ =~= outcome_cells(self.outcomes@).take(i + 1));
            i = i + 1;
        }
        assert(outcome_cells(self.outcomes@).take(self.outcomes@.len() as int) =~= outcome_cells(self.outcomes@));
        cells
    }

    /// How many of this arm's cells stalled.
    pub fn stalled_count(&self) -> (count: usize)
        ensures
            count == stalled_among(self.outcomes@, self.outcomes@.len() as int),
    {
        let mut count: usize = 0;
        let mut i: usize = 0;
        while i < self.outcomes.len()
            invariant
                i <= self.outcomes@.len(),
                count == stalled_among(self.outcomes@, i as int),
                count <= i,
            decreases self.outcomes@.len() - i,
        {
            if self.outcomes[i].stalled {
                count = count + 1;
            }
            i = i + 1;
        }
        count
    }
}

/// How many of the first `n` outcomes stalled.
pub open spec fn stalled_among(outcomes: Seq<CellOutcome>, n: int) -> int
    decreases n,
{
    if n <= 0 {
        0
    } else {
        stalled_among(outcomes, n - 1) + if outcomes[n - 1].stalled {
            1int
        } else {
            0int
        }
    }
}

/// The pair keys of a list of outcomes.
pub open spec fn outcome_keys(outcomes: Seq<CellOutcome>) -> Seq<Seq<char>> {
    outcomes.map_values(|outcome: CellOutcome| pair_key_view(outcome.cell@))
}

/// The position of the last of the first `n` keys equal to `key`: the
/// outcome a key-indexed map of the arm would keep.
pub open spec fn last_with_key(keys: Seq<Seq<char>>, key: Seq<char>, n: int) -> Option<int>
    decreases n,
{
    if n <= 0 {
        None
    } else if keys[n - 1] == key {
        Some(n - 1)
    } else {
        last_with_key(keys, key, n - 1)
    }
}

proof fn lemma_last_with_key_bounds(keys: Seq<Seq<char>>, key: Seq<char>, n: int)
    ensures
        match last_with_key(keys, key, n) {
            Some(at) => 0 <= at < n && keys[at] == key,
            None => true,
        },
    decreases n,
{
    if n > 0 && keys[n - 1] != key {
        lemma_last_with_key_bounds(keys, key, n - 1);
    }
}

/// The pair keys of a list of outcomes, computed.
fn keys_of_outcomes(outcomes: &Vec<CellOutcome>) -> (keys: Vec<String>)
    ensures
        string_views(keys@) == outcome_keys(outcomes@),
{
    let mut keys: Vec<String> = Vec::new();
    let mut i: usize = 0;
    while i < outcomes.len()
        invariant
            i <= outcomes@.len(),
            string_views(keys@) == outcome_keys(outcomes@).take(i as int),
        decreases outcomes@.len() - i,
    {
        let key = outcomes[i].cell.pair_key();
        let ghost before = keys@;
        keys.push(key);
        proof {
            assert(keys@ =~= before.push(key));
            assert(string_views(keys@) =~= string_views(before).push(key@));
            assert(string_views(keys@) =~= outcome_keys(outcomes@).take(i + 1));
        }
        i = i + 1;
    }
    assert(outcome_keys(outcomes@).take(outcomes@.len() as int) =~= outcome_keys(outcomes@));
    keys
}

/// The position of the last of `keys` equal to `key`.
fn last_position(keys: &Vec<String>, key: &str) -> (at: Option<usize>)
    ensures
        match last_with_key(string_views(keys@), key@, keys@.len() as int) {
            Some(k) => at == Some(k as usize),
            None => at is None,
        },
{
    let mut n: usize = keys.len();
    while n > 0
        invariant
            n <= keys@.len(),
            last_with_key(string_views(keys@), key@, keys@.len() as int) == last_with_key(
                string_views(keys@),
                key@,
                n as int,
            ),
        decreases n,
    {
        if text_eq(keys[n - 1].as_str(), key) {
            assert(string_views(keys@)[n - 1] == key@);
            return Some(n - 1);
        }
        assert(string_views(keys@)[n - 1] != key@);
        n = n - 1;
    }
    None
}

/// For each candidate outcome, the reference outcome at the same shared
/// coordinate: the last reference outcome with its pair key, if any.
pub fn paired_mirrors(candidate: &Vec<CellOutcome>, reference: &Vec<CellOutcome>) -> (mirrors: Vec<Option<usize>>)
    ensures
        mirrors@.len() == candidate@.len(),
        forall|i: int|
            0 <= i < candidate@.len() ==> #[trigger] mirrors@[i] == match last_with_key(
                outcome_keys(reference@),
                pair_key_view(candidate@[i].cell@),
                reference@.len() as int,
            ) {
                Some(k) => Some(k as usize),
                None => None::<usize>,
            },
{
    let reference_keys = keys_of_outcomes(reference);
    let mut mirrors: Vec<Option<usize>> = Vec::new();
    let mut i: usize = 0;
    while i < candidate.len()
        invariant
            i <= candidate@.len(),
            mirrors@.len() == i,
            string_views(reference_keys@) == outcome_keys(reference@),
            forall|k: int|
                0 <= k < i ==> #[trigger] mirrors@[k] == match last_with_key(
                    outcome_keys(reference@),
                    pair_key_view(candidate@[k].cell@),
                    reference@.len() as int,
                ) {
                    Some(m) => Some(m as usize),
                    None => None::<usize>,
                },
        decreases candidate@.len() - i,
    {
        let key = candidate[i].cell.pair_key();
        let at = last_position(&reference_keys, key.as_str());
        proof {
            lemma_last_with_key_bounds(outcome_keys(reference@), key@, reference@.len() as int);
            assert(reference_keys@.len() == string_views(reference_keys@).len());
        }
        let ghost before = mirrors@;
        mirrors.push(at);
        assert(mirrors@[i as int] == at);
        assert(forall|k: int| 0 <= k < i ==> mirrors@[k] == before[k]);
        i = i + 1;
    }
    mirrors
}

/// One opponent's counts from the candidate arm, with the reference arm's
/// decided and won mirrors of the same cells.
#[derive(Clone, Debug)]
pub struct OpponentTally {
    pub cells: usize,
    pub wins: u32,
    pub decided: u32,
    pub play_wins: u32,
    pub play_decided: u32,
    pub draw_wins: u32,
    pub draw_decided: u32,
    pub draws: u32,
    pub stalls: u32,
    pub rejected: u32,
    pub findings: Vec<EngineFinding>,
    /// Why each stalled cell stalled, in cell order.
    pub stall_details: Vec<String>,
    pub reference_wins: u32,
    pub reference_decided: u32,
}

/// The mathematical value of an opponent's counts.
pub struct OpponentTallyView {
    pub cells: int,
    pub wins: int,
    pub decided: int,
    pub play_wins: int,
    pub play_decided: int,
    pub draw_wins: int,
    pub draw_decided: int,
    pub draws: int,
    pub stalls: int,
    pub rejected: int,
    pub findings: Seq<EngineFinding>,
    pub stall_details: Seq<Seq<char>>,
    pub reference_wins: int,
    pub reference_decided: int,
}

impl View for OpponentTally {
    type V = OpponentTallyView;

    open spec fn view(&self) -> OpponentTallyView {
        OpponentTallyView {
            cells: self.cells as int,
            wins: self.wins as int,
            decided: self.decided as int,
            play_wins: self.play_wins as int,
            play_decided: self.play_decided as int,
            draw_wins: self.draw_wins as int,
            draw_decided: self.draw_decided as int,
            draws: self.draws as int,
            stalls: self.stalls as int,
            rejected: self.rejected as int,
            findings: self.findings@,
            stall_details: string_views(self.stall_details@),
            reference_wins: self.reference_wins as int,
            reference_decided: self.reference_decided as int,
        }
    }
}

/// One when `flag` holds, else zero.
pub open spec fn one_if(flag: bool) -> int {
    if flag {
        1
    } else {
        0
    }
}

/// The counts after one more candidate outcome against this opponent: every
/// cell counts its draws, stalls, refusals, findings and stall reason; a
/// decided cell counts for its seat; its mirror counts for the reference
/// when the mirror was decided.
pub open spec fn opponent_step(
    tally: OpponentTallyView,
    outcome: CellOutcome,
    reference: Seq<CellOutcome>,
) -> OpponentTallyView {
    let won = one_if(outcome.won);
    let decided = if outcome.decided {
        if outcome.cell.seat == crate::roster::Seat::Play {
            OpponentTallyView {
                decided: tally.decided + 1,
                wins: tally.wins + won,
                play_decided: tally.play_decided + 1,
                play_wins: tally.play_wins + won,
                ..tally
            }
        } else {
            OpponentTallyView {
                decided: tally.decided + 1,
                wins: tally.wins + won,
                draw_decided: tally.draw_decided + 1,
                draw_wins: tally.draw_wins + won,
                ..tally
            }
        }
    } else {
        tally
    };
    let counted = OpponentTallyView {
        cells: decided.cells + 1,
        draws: decided.draws + one_if(outcome.drawn),
        stalls: decided.stalls + one_if(outcome.stalled),
        rejected: decided.rejected + outcome.rejected_moves,
        findings: decided.findings + outcome.engine_findings@,
        stall_details: match outcome.termination_detail {
            Some(detail) => decided.stall_details.push(detail@),
            None => decided.stall_details,
        },
        ..decided
    };
    match last_with_key(outcome_keys(reference), pair_key_view(outcome.cell@), reference.len() as int) {
        Some(at) => if reference[at].decided {
            OpponentTallyView {
                reference_decided: counted.reference_decided + 1,
                reference_wins: counted.reference_wins + one_if(reference[at].won),
                ..counted
            }
        } else {
            counted
        },
        None => counted,
    }
}

/// The counts of no cells.
pub open spec fn empty_opponent_tally() -> OpponentTallyView {
    OpponentTallyView {
        cells: 0,
        wins: 0,
        decided: 0,
        play_wins: 0,
        play_decided: 0,
        draw_wins: 0,
        draw_decided: 0,
        draws: 0,
        stalls: 0,
        rejected: 0,
        findings: Seq::empty(),
        stall_details: Seq::empty(),
        reference_wins: 0,
        reference_decided: 0,
    }
}

/// The counts over the first `n` candidate outcomes that face opponent `id`.
pub open spec fn opponent_tally_view(
    candidate: Seq<CellOutcome>,
    reference: Seq<CellOutcome>,
    id: Seq<char>,
    n: int,
) -> OpponentTallyView
    decreases n,
{
    if n <= 0 {
        empty_opponent_tally()
    } else if candidate[n - 1].cell.opponent_id@ == id {
        opponent_step(opponent_tally_view(candidate, reference, id, n - 1), candidate[n - 1], reference)
    } else {
        opponent_tally_view(candidate, reference, id, n - 1)
    }
}

/// Whether every running count fits its machine word.
pub open spec fn opponent_tally_fits(tally: OpponentTallyView) -> bool {
    &&& tally.wins <= u32::MAX
    &&& tally.decided <= u32::MAX
    &&& tally.play_wins <= u32::MAX
    &&& tally.play_decided <= u32::MAX
    &&& tally.draw_wins <= u32::MAX
    &&& tally.draw_decided <= u32::MAX
    &&& tally.draws <= u32::MAX
    &&& tally.stalls <= u32::MAX
    &&& tally.rejected <= u32::MAX
    &&& tally.reference_wins <= u32::MAX
    &&& tally.reference_decided <= u32::MAX
}

/// Counts the candidate arm's cells against opponent `id`, and the
/// reference arm's mirrors of them.
pub fn tally_opponent(candidate: &Vec<CellOutcome>, reference: &Vec<CellOutcome>, id: &str) -> (tally: OpponentTally)
    requires
        forall|n: int|
            0 <= n <= candidate@.len() ==> opponent_tally_fits(
                #[trigger] opponent_tally_view(candidate@, reference@, id@, n),
            ),
    ensures
        tally@ == opponent_tally_view(candidate@, reference@, id@, candidate@.len() as int),
{
    let mirrors = paired_mirrors(candidate, reference);
    let mut tally = OpponentTally {
        cells: 0,
        wins: 0,
        decided: 0,
        play_wins: 0,
        play_decided: 0,
        draw_wins: 0,
        draw_decided: 0,
        draws: 0,
        stalls: 0,
        rejected: 0,
        findings: Vec::new(),
        stall_details: Vec::new(),
        reference_wins: 0,
        reference_decided: 0,
    };
    assert(tally@ == opponent_tally_view(candidate@, reference@, id@, 0)) by {
        assert(string_views(tally.stall_details@) =~= Seq::<Seq<char>>::empty());
    }
    let mut i: usize = 0;
    while i < candidate.len()
        invariant
            i <= candidate@.len(),
            tally@ == opponent_tally_view(candidate@, reference@, id@, i as int),
            tally.cells <= i,
            mirrors@.len() == candidate@.len(),
            forall|k: int|
                0 <= k < candidate@.len() ==> #[trigger] mirrors@[k] == match last_with_key(
                    outcome_keys(reference@),
                    pair_key_view(candidate@[k].cell@),
                    reference@.len() as int,
                ) {
                    Some(m) => Some(m as usize),
                    None => None::<usize>,
                },
            forall|n: int|
                0 <= n <= candidate@.len() ==> opponent_tally_fits(
                    #[trigger] opponent_tally_view(candidate@, reference@, id@, n),
                ),
        decreases candidate@.len() - i,
    {
        let outcome = &candidate[i];
        let ghost next = opponent_tally_view(candidate@, reference@, id@, i + 1);
        assert(opponent_tally_fits(next));
        if text_eq(outcome.cell.opponent_id.as_str(), id) {
            let ghost before = tally@;
            if outcome.decided {
                let won: u32 = if outcome.won {
                    1
                } else {
                    0
                };
                tally.decided = tally.decided + 1;
                tally.wins = tally.wins + won;
                match outcome.cell.seat {
                    crate::roster::Seat::Play => {
                        tally.play_decided = tally.play_decided + 1;
                        tally.play_wins = tally.play_wins + won;
                    },
                    crate::roster::Seat::Draw => {
                        tally.draw_decided = tally.draw_decided + 1;
                        tally.draw_wins = tally.draw_wins + won;
                    },
                }
            }
            tally.cells = tally.cells + 1;
            if outcome.drawn {
                tally.draws = tally.draws + 1;
            }
            if outcome.stalled {
                tally.stalls = tally.stalls + 1;
            }
            tally.rejected = tally.rejected + outcome.rejected_moves;
            let mut found = copy_findings(&outcome.engine_findings);
            let ghost findings_before = tally.findings@;
            tally.findings.append(&mut found);
            assert(tally.findings@ =~= findings_before + outcome.engine_findings@);
            let ghost details_before = tally.stall_details@;
            match &outcome.termination_detail {
                Some(detail) => {
                    tally.stall_details.push(detail.clone());
                    assert(string_views(tally.stall_details@) =~= string_views(details_before).push(detail@));
                },
                None => {},
            }
            let ghost found = last_with_key(
                outcome_keys(reference@),
                pair_key_view(outcome.cell@),
                reference@.len() as int,
            );
            proof {
                lemma_last_with_key_bounds(
                    outcome_keys(reference@),
                    pair_key_view(outcome.cell@),
                    reference@.len() as int,
                );
            }
            assert(reference@.len() == reference.len());
            assert(mirrors@[i as int] == match found {
                Some(m) => Some(m as usize),
                None => None::<usize>,
            });
            let (mirror_decided, mirror_won) = match mirrors[i] {
                Some(at) => {
                    assert(found == Some(at as int));
                    (reference[at].decided, reference[at].won)
                },
                None => {
                    assert(found is None);
                    (false, false)
                },
            };
            assert(mirror_decided == match found {
                Some(at) => reference@[at].decided,
                None => false,
            });
            assert(mirror_won == match found {
                Some(at) => reference@[at].won,
                None => false,
            });
            assert(next.reference_decided == before.reference_decided + one_if(mirror_decided));
            if mirror_decided {
                tally.reference_decided = tally.reference_decided + 1;
                if mirror_won {
                    tally.reference_wins = tally.reference_wins + 1;
                }
            }
            assert(tally@ == next);
        } else {
            assert(candidate@[i as int].cell.opponent_id@ != id@);
        }
        i = i + 1;
    }
    tally
}


// ---------------------------------------------------------------------------
// Playing an arm
// ---------------------------------------------------------------------------

pub open spec fn unknown_opponent_message(id: Seq<char>) -> Seq<char> {
    "cell names unknown opponent `"@ + id + "`"@
}

/// The first opponent with id `id`, or the refusal naming it.
pub fn find_opponent(opponents: &Vec<Opponent>, id: &str) -> (found: Result<usize, String>)
    ensures
        match found {
            Ok(at) => at < opponents@.len() && opponents@[at as int].id@ == id@ && forall|k: int|
                0 <= k < at ==> #[trigger] opponents@[k].id@ != id@,
            Err(message) => message@ == unknown_opponent_message(id@) && forall|k: int|
                0 <= k < opponents@.len() ==> #[trigger] opponents@[k].id@ != id@,
        },
{
    let mut i: usize = 0;
    while i < opponents.len()
        invariant
            i <= opponents@.len(),
            forall|k: int| 0 <= k < i ==> #[trigger] opponents@[k].id@ != id@,
        decreases opponents@.len() - i,
    {
        if text_eq(opponents[i].id.as_str(), id) {
            return Ok(i);
        }
        i = i + 1;
    }
    let mut message = String::new();
    push_text(&mut message, "cell names unknown opponent `");
    push_text(&mut message, id);
    push_text(&mut message, "`");
    Err(message)
}

/// What a finished match says about one cell, for the entrant seated in
/// `entrant_seat`: a winner decides the cell, for the entrant when it holds
/// that seat; a draw is drawn; any other stop is a stall, described by
/// `detail`. The refused proposals are the attempted ones the engine did
/// not accept.
pub fn cell_outcome(cell: Cell, entrant_seat: usize, result: &DeckMatchResult, detail: String) -> (outcome: CellOutcome)
    ensures
        outcome.cell == cell,
        outcome.turns == result.turns,
        outcome.rejected_moves == if result.attempted_policy_moves > result.accepted_policy_moves {
            result.attempted_policy_moves - result.accepted_policy_moves
        } else {
            0
        },
        outcome.engine_findings@ == result.engine_findings@,
        match result.termination {
            DeckMatchTermination::Winner(PlayerId(seat)) => outcome.decided && outcome.won == (seat == entrant_seat)
                && !outcome.drawn && !outcome.stalled,
            DeckMatchTermination::Draw => !outcome.decided && !outcome.won && outcome.drawn && !outcome.stalled,
            _ => !outcome.decided && !outcome.won && !outcome.drawn && outcome.stalled,
        },
        outcome.termination_detail == if outcome.stalled {
            Some(detail)
        } else {
            None
        },
{
    let (won, decided, drawn, stalled) = match result.termination {
        DeckMatchTermination::Winner(PlayerId(seat)) => (seat == entrant_seat, true, false, false),
        DeckMatchTermination::Draw => (false, false, true, false),
        _ => (false, false, false, true),
    };
    CellOutcome {
        cell,
        won,
        decided,
        drawn,
        stalled,
        turns: result.turns,
        rejected_moves: result.attempted_policy_moves.saturating_sub(result.accepted_policy_moves),
        engine_findings: copy_findings(&result.engine_findings),
        termination_detail: if stalled {
            Some(detail)
        } else {
            None
        },
    }
}


/// An opponent's counts account for its cells: every decided cell was
/// played from one seat, and no seat wins more cells than it decided, for
/// the candidate and for its reference mirrors alike.
pub proof fn opponent_tally_is_consistent(
    candidate: Seq<CellOutcome>,
    reference: Seq<CellOutcome>,
    id: Seq<char>,
    n: int,
)
    requires
        0 <= n <= candidate.len(),
    ensures
        opponent_tally_view(candidate, reference, id, n).play_decided + opponent_tally_view(
            candidate,
            reference,
            id,
            n,
        ).draw_decided == opponent_tally_view(candidate, reference, id, n).decided,
        opponent_tally_view(candidate, reference, id, n).play_wins + opponent_tally_view(
            candidate,
            reference,
            id,
            n,
        ).draw_wins == opponent_tally_view(candidate, reference, id, n).wins,
        0 <= opponent_tally_view(candidate, reference, id, n).play_wins <= opponent_tally_view(
            candidate,
            reference,
            id,
            n,
        ).play_decided,
        0 <= opponent_tally_view(candidate, reference, id, n).draw_wins <= opponent_tally_view(
            candidate,
            reference,
            id,
            n,
        ).draw_decided,
        opponent_tally_view(candidate, reference, id, n).decided <= opponent_tally_view(
            candidate,
            reference,
            id,
            n,
        ).cells <= n,
        0 <= opponent_tally_view(candidate, reference, id, n).reference_wins <= opponent_tally_view(
            candidate,
            reference,
            id,
            n,
        ).reference_decided <= opponent_tally_view(candidate, reference, id, n).cells,
    decreases n,
{
    if n > 0 {
        opponent_tally_is_consistent(candidate, reference, id, n - 1);
    }
}

} // verus!
