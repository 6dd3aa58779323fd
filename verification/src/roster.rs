//! The fixed evaluation surface for the code-policy benchmark.
//!
//! A roster names the opponent splits and the frozen reference. A cell is one
//! evaluation coordinate: `(candidate deck, candidate pilot, opponent,
//! opponent deck, seat, seed)`. Two identifiers come off every cell: the full
//! [`Cell::cell_id`], which coverage is checked against, and the
//! [`Cell::pair_key`], which drops the candidate's half and is what the
//! candidate arm and the reference arm share.

use vstd::prelude::*;
use crate::archetype::Archetype;
use crate::text::{
    decimal, lemma_decimal_injective, lemma_split_at_bar, no_bar, push_char,
    push_decimal, push_text, text_eq,
};
use crate::versions::{PolicyVersion, REFERENCE_ID, REFERENCE_VERSION};

verus! {

/// Schema of the committed roster file.
pub const ROSTER_SCHEMA: &'static str = "cardbench.magic.code_policy_roster.v1";

/// Schema of the sealed held-out manifest.
pub const HELDOUT_SCHEMA: &'static str = "cardbench.magic.code_policy_heldout.v1";

/// Which opponent set a sweep is scored over.
#[derive(Clone, Copy, Debug, PartialEq, Eq, Structural)]
pub enum Split {
    /// Visible opponents. Feedback only, never the reported score.
    Train,
    /// Sealed opponents. The authority the reward is computed from.
    Heldout,
}

impl Split {
    pub open spec fn id_view(self) -> Seq<char> {
        match self {
            Split::Train => "train"@,
            Split::Heldout => "heldout"@,
        }
    }

    pub open spec fn parse_view(value: Seq<char>) -> Option<Split> {
        if value == "train"@ {
            Some(Split::Train)
        } else if value == "heldout"@ {
            Some(Split::Heldout)
        } else {
            None
        }
    }

    /// The split's stable identifier.
    pub fn id(self) -> (id: &'static str)
        ensures
            id@ == self.id_view(),
    {
        match self {
            Split::Train => "train",
            Split::Heldout => "heldout",
        }
    }

    /// Parses a split identifier.
    pub fn parse(value: &str) -> (parsed: Option<Split>)
        ensures
            parsed == Split::parse_view(value@),
    {
        if text_eq(value, "train") {
            Some(Split::Train)
        } else if text_eq(value, "heldout") {
            Some(Split::Heldout)
        } else {
            None
        }
    }
}

/// Which seat the candidate occupies. Seat zero is on the play.
#[derive(Clone, Copy, Debug, PartialEq, Eq, PartialOrd, Ord, Structural)]
pub enum Seat {
    Play,
    Draw,
}

impl Seat {
    /// Both seats, the play first.
    pub const ALL: [Seat; 2] = [Seat::Play, Seat::Draw];

    pub open spec fn id_view(self) -> Seq<char> {
        match self {
            Seat::Play => seq!['p', '0'],
            Seat::Draw => seq!['p', '1'],
        }
    }

    pub open spec fn index_view(self) -> int {
        match self {
            Seat::Play => 0,
            Seat::Draw => 1,
        }
    }

    /// The seat's stable identifier.
    pub fn id(self) -> (id: &'static str)
        ensures
            id@ == self.id_view(),
    {
        proof {
            reveal_strlit("p0");
            reveal_strlit("p1");
        }
        match self {
            Seat::Play => "p0",
            Seat::Draw => "p1",
        }
    }

    /// Index of the seat the candidate sits in. The opponent takes the other.
    pub fn index(self) -> (index: usize)
        ensures
            index == self.index_view(),
    {
        match self {
            Seat::Play => 0,
            Seat::Draw => 1,
        }
    }
}

/// One opponent as the roster declares it: a pilot generation on a deck.
#[derive(Clone, Debug, PartialEq, Eq)]
pub struct OpponentSpec {
    pub id: String,
    /// Archetype-policy generation id, e.g. `v3`.
    pub pilot: String,
    /// Deck fixture id the opponent pilots.
    pub deck: String,
}

/// The frozen origin every score is a delta against, as the roster names it.
#[derive(Clone, Debug, PartialEq, Eq)]
pub struct ReferenceSpec {
    pub id: String,
    pub pilot: String,
    pub deck: String,
}

/// What the roster reads of one deck fixture: its id and declared archetype.
#[derive(Clone, Debug, PartialEq, Eq)]
pub struct DeckInfo {
    pub id: String,
    pub archetype: String,
}

/// One evaluation coordinate.
#[derive(Clone, Debug, PartialEq, Eq)]
pub struct Cell {
    pub candidate_deck: String,
    pub candidate_pilot: String,
    pub opponent_id: String,
    pub opponent_deck: String,
    pub seat: Seat,
    pub seed: u64,
}

/// The mathematical value of a cell.
pub type CellView = (Seq<char>, Seq<char>, Seq<char>, Seq<char>, Seat, u64);

impl View for Cell {
    type V = CellView;

    open spec fn view(&self) -> CellView {
        (self.candidate_deck@, self.candidate_pilot@, self.opponent_id@, self.opponent_deck@, self.seat, self.seed)
    }
}

/// The separator between identifier fields.
pub open spec fn bar() -> Seq<char> {
    seq!['|']
}

/// The full coordinate of a cell, including the candidate's half.
pub open spec fn cell_id_view(cell: CellView) -> Seq<char> {
    cell.0 + bar() + cell.1 + bar() + cell.2 + bar() + cell.3 + bar() + cell.4.id_view() + bar() + decimal(
        cell.5 as nat,
    )
}

/// The coordinate a cell shares with the reference arm.
pub open spec fn pair_key_view(cell: CellView) -> Seq<char> {
    cell.2 + bar() + cell.3 + bar() + cell.4.id_view() + bar() + decimal(cell.5 as nat)
}

impl Cell {
    /// The full coordinate, including the candidate's half. Coverage is
    /// checked against the set of these.
    pub fn cell_id(&self) -> (id: String)
        ensures
            id@ == cell_id_view(self@),
    {
        let mut id = String::new();
        push_text(&mut id, self.candidate_deck.as_str());
        push_char(&mut id, '|');
        push_text(&mut id, self.candidate_pilot.as_str());
        push_char(&mut id, '|');
        push_text(&mut id, self.opponent_id.as_str());
        push_char(&mut id, '|');
        push_text(&mut id, self.opponent_deck.as_str());
        push_char(&mut id, '|');
        push_text(&mut id, self.seat.id());
        push_char(&mut id, '|');
        push_decimal(&mut id, self.seed);
        assert(id@ =~= cell_id_view(self@));
        id
    }

    /// The coordinate shared with the reference arm. The paired comparison
    /// joins on this and on nothing else.
    pub fn pair_key(&self) -> (key: String)
        ensures
            key@ == pair_key_view(self@),
    {
        let mut key = String::new();
        push_text(&mut key, self.opponent_id.as_str());
        push_char(&mut key, '|');
        push_text(&mut key, self.opponent_deck.as_str());
        push_char(&mut key, '|');
        push_text(&mut key, self.seat.id());
        push_char(&mut key, '|');
        push_decimal(&mut key, self.seed);
        assert(key@ =~= pair_key_view(self@));
        key
    }
}


proof fn lemma_seat_ids(seat: Seat, other: Seat)
    ensures
        no_bar(seat.id_view()),
        seat.id_view() == other.id_view() ==> seat == other,
{
    if seat != other {
        assert(seat.id_view()[1] != other.id_view()[1]);
    }
}

/// The pair key names the shared coordinate exactly: two cells whose
/// opponent and deck ids hold no separator have the same pair key if and
/// only if they agree on opponent, opponent deck, seat and seed, whatever
/// their candidate halves are.
pub proof fn pair_key_identifies_shared_coordinate(left: CellView, right: CellView)
    requires
        no_bar(left.2),
        no_bar(left.3),
        no_bar(right.2),
        no_bar(right.3),
    ensures
        pair_key_view(left) == pair_key_view(right) <==> (left.2 == right.2 && left.3 == right.3
            && left.4 == right.4 && left.5 == right.5),
{
    if pair_key_view(left) == pair_key_view(right) {
        lemma_seat_ids(left.4, right.4);
        lemma_seat_ids(right.4, left.4);
        let l3 = left.3 + bar() + left.4.id_view() + bar() + decimal(left.5 as nat);
        let r3 = right.3 + bar() + right.4.id_view() + bar() + decimal(right.5 as nat);
        assert(pair_key_view(left) =~= left.2 + bar() + l3);
        assert(pair_key_view(right) =~= right.2 + bar() + r3);
        lemma_split_at_bar(left.2, l3, right.2, r3);
        let l4 = left.4.id_view() + bar() + decimal(left.5 as nat);
        let r4 = right.4.id_view() + bar() + decimal(right.5 as nat);
        assert(l3 =~= left.3 + bar() + l4);
        assert(r3 =~= right.3 + bar() + r4);
        lemma_split_at_bar(left.3, l4, right.3, r4);
        lemma_split_at_bar(left.4.id_view(), decimal(left.5 as nat), right.4.id_view(), decimal(right.5 as nat));
        lemma_decimal_injective(left.5 as nat, right.5 as nat);
    }
}

/// The full cell id names the whole coordinate exactly: two cells whose
/// string fields hold no separator have the same id if and only if they are
/// the same cell, so the two arms never collide in the coverage check.
pub proof fn cell_id_identifies_cell(left: CellView, right: CellView)
    requires
        no_bar(left.0),
        no_bar(left.1),
        no_bar(right.0),
        no_bar(right.1),
        no_bar(left.2),
        no_bar(left.3),
        no_bar(right.2),
        no_bar(right.3),
    ensures
        cell_id_view(left) == cell_id_view(right) <==> left == right,
{
    if cell_id_view(left) == cell_id_view(right) {
        let l1 = left.1 + bar() + pair_key_view(left);
        let r1 = right.1 + bar() + pair_key_view(right);
        assert(cell_id_view(left) =~= left.0 + bar() + l1);
        assert(cell_id_view(right) =~= right.0 + bar() + r1);
        lemma_split_at_bar(left.0, l1, right.0, r1);
        lemma_split_at_bar(left.1, pair_key_view(left), right.1, pair_key_view(right));
        pair_key_identifies_shared_coordinate(left, right);
    }
}


// ---------------------------------------------------------------------------
// Entrants, opponents and the surface
// ---------------------------------------------------------------------------

/// One arm of the comparison: a deck plus the pilot generation flying it.
#[derive(Clone, Debug, PartialEq, Eq)]
pub struct Entrant {
    pub label: String,
    pub deck: String,
    pub pilot: PolicyVersion,
    /// Resolved from the deck fixture, never declared twice.
    pub archetype: Archetype,
}

/// One opponent, resolved against the deck fixtures.
#[derive(Clone, Debug, PartialEq, Eq)]
pub struct Opponent {
    pub id: String,
    pub deck: String,
    pub pilot: PolicyVersion,
    pub archetype: Archetype,
}

/// The mathematical value of an opponent.
pub type OpponentView = (Seq<char>, Seq<char>, PolicyVersion, Archetype);

impl View for Opponent {
    type V = OpponentView;

    open spec fn view(&self) -> OpponentView {
        (self.id@, self.deck@, self.pilot, self.archetype)
    }
}

/// A roster resolved into the concrete surface a sweep must cover.
#[derive(Clone, Debug)]
pub struct Surface {
    pub split: Split,
    pub roster_id: String,
    pub task_id: String,
    pub score_metric: String,
    /// `Some` for held-out: the digest the manifest hashed to, already
    /// checked against the committed pin.
    pub manifest_sha256: Option<String>,
    pub reference: Entrant,
    pub opponents: Vec<Opponent>,
    pub seeds: u32,
    /// Deck ids a candidate is allowed to submit.
    pub candidate_deck_pool: Vec<String>,
}

/// The cell an entrant plays against one opponent from one seat at one seed.
pub open spec fn cell_of(entrant: Entrant, opponent: OpponentView, seat: Seat, seed: int) -> CellView {
    (entrant.deck@, entrant.pilot.id_view(), opponent.0, opponent.1, seat, seed as u64)
}

/// Every seed for one opponent and seat, in seed order.
pub open spec fn seat_block(entrant: Entrant, opponent: OpponentView, seat: Seat, seeds: nat) -> Seq<CellView> {
    Seq::new(seeds, |seed: int| cell_of(entrant, opponent, seat, seed))
}

/// Every cell against one opponent: the play seat first, then the draw.
pub open spec fn opponent_block(entrant: Entrant, opponent: OpponentView, seeds: nat) -> Seq<CellView> {
    seat_block(entrant, opponent, Seat::Play, seeds) + seat_block(entrant, opponent, Seat::Draw, seeds)
}

/// Every cell against the first `n` opponents, in canonical order.
pub open spec fn surface_cells(entrant: Entrant, opponents: Seq<OpponentView>, seeds: nat, n: int) -> Seq<CellView>
    decreases n,
{
    if n <= 0 {
        Seq::empty()
    } else {
        surface_cells(entrant, opponents, seeds, n - 1) + opponent_block(entrant, opponents[n - 1], seeds)
    }
}

/// The views of a list of opponents.
pub open spec fn opponent_views(opponents: Seq<Opponent>) -> Seq<OpponentView> {
    opponents.map_values(|opponent: Opponent| opponent@)
}

/// The views of a list of cells.
pub open spec fn cell_views(cells: Seq<Cell>) -> Seq<CellView> {
    cells.map_values(|cell: Cell| cell@)
}

impl Surface {
    /// Every cell one arm must cover, in canonical order: opponents in roster
    /// order, the play seat before the draw, seeds ascending.
    pub fn cells(&self, entrant: &Entrant) -> (cells: Vec<Cell>)
        ensures
            cell_views(cells@) == surface_cells(
                *entrant,
                opponent_views(self.opponents@),
                self.seeds as nat,
                self.opponents@.len() as int,
            ),
    {
        let ghost opponents = opponent_views(self.opponents@);
        let ghost seeds = self.seeds as nat;
        let mut cells: Vec<Cell> = Vec::new();
        let mut i: usize = 0;
        while i < self.opponents.len()
            invariant
                i <= self.opponents@.len(),
                opponents == opponent_views(self.opponents@),
                seeds == self.seeds as nat,
                cell_views(cells@) == surface_cells(*entrant, opponents, seeds, i as int),
            decreases self.opponents@.len() - i,
        {
            let opponent = &self.opponents[i];
            let ghost before = cell_views(cells@);
            let mut which: usize = 0;
            while which < 2
                invariant
                    which <= 2,
                    i < self.opponents@.len(),
                    *opponent == self.opponents@[i as int],
                    seeds == self.seeds as nat,
                    before == surface_cells(*entrant, opponents, seeds, i as int),
                    opponents == opponent_views(self.opponents@),
                    cell_views(cells@) == before + if which == 0 {
                        Seq::<CellView>::empty()
                    } else if which == 1 {
                        seat_block(*entrant, opponent@, Seat::Play, seeds)
                    } else {
                        opponent_block(*entrant, opponent@, seeds)
                    },
                decreases 2 - which,
            {
                let seat = if which == 0 {
                    Seat::Play
                } else {
                    Seat::Draw
                };
                let ghost start = cell_views(cells@);
                let mut seed: u64 = 0;
                while seed < self.seeds as u64
                    invariant
                        seed <= self.seeds,
                        *opponent == self.opponents@[i as int],
                        seeds == self.seeds as nat,
                        cell_views(cells@) == start + seat_block(*entrant, opponent@, seat, seed as nat),
                    decreases self.seeds - seed,
                {
                    let cell = Cell {
                        candidate_deck: entrant.deck.clone(),
                        candidate_pilot: entrant.pilot.id().to_owned(),
                        opponent_id: opponent.id.clone(),
                        opponent_deck: opponent.deck.clone(),
                        seat,
                        seed,
                    };
                    assert(cell@ == cell_of(*entrant, opponent@, seat, seed as int));
                    let ghost prior = cells@;
                    cells.push(cell);
                    assert(cells@ =~= prior.push(cell));
                    assert(cell_views(cells@) =~= cell_views(prior).push(cell@));
                    assert(seat_block(*entrant, opponent@, seat, (seed + 1) as nat) =~= seat_block(
                        *entrant,
                        opponent@,
                        seat,
                        seed as nat,
                    ).push(cell_of(*entrant, opponent@, seat, seed as int)));
                    assert(cell_views(cells@) =~= start + seat_block(*entrant, opponent@, seat, (seed + 1) as nat));
                    seed = seed + 1;
                }
                assert(opponent@ == opponents[i as int]);
                if which == 0 {
                    assert(cell_views(cells@) =~= before + seat_block(*entrant, opponent@, Seat::Play, seeds));
                } else {
                    assert(cell_views(cells@) =~= before + opponent_block(*entrant, opponent@, seeds));
                }
                which = which + 1;
            }
            i = i + 1;
        }
        cells
    }

    /// The cell count one arm must produce.
    pub fn cell_count(&self) -> (count: usize)
        requires
            self.opponents@.len() * 2 <= usize::MAX,
            self.opponents@.len() * 2 * self.seeds <= usize::MAX,
        ensures
            count == self.opponents@.len() * 2 * self.seeds,
    {
        let per_seed: usize = self.opponents.len() * 2;
        per_seed * self.seeds as usize
    }
}

/// The surface's cells are exactly as many as its published count.
pub proof fn cells_match_cell_count(entrant: Entrant, opponents: Seq<OpponentView>, seeds: nat, n: int)
    requires
        0 <= n,
    ensures
        surface_cells(entrant, opponents, seeds, n).len() == n * 2 * seeds,
    decreases n,
{
    if n > 0 {
        cells_match_cell_count(entrant, opponents, seeds, n - 1);
        let block = opponent_block(entrant, opponents[n - 1], seeds);
        assert(block.len() == 2 * seeds);
        let rest = surface_cells(entrant, opponents, seeds, n - 1);
        assert(surface_cells(entrant, opponents, seeds, n) == rest + block);
        assert((n - 1) * 2 * seeds + 2 * seeds == n * 2 * seeds) by (nonlinear_arith);
        assert(rest.len() == (n - 1) * 2 * seeds);
    } else {
        assert(n * 2 * seeds == 0) by (nonlinear_arith)
            requires
                n == 0,
        ;
    }
}



// ---------------------------------------------------------------------------
// Resolving names against the deck fixtures and the pilot generations
// ---------------------------------------------------------------------------

/// Whether an exec result agrees with the result its contract names: the same
/// value on success, the same text on failure.
pub open spec fn agrees<T>(got: Result<T, String>, want: Result<T, Seq<char>>) -> bool {
    match (got, want) {
        (Ok(value), Ok(expected)) => value == expected,
        (Err(message), Err(expected)) => message@ == expected,
        _ => false,
    }
}

/// The first deck fixture in `decks` whose id is `id`.
pub open spec fn deck_named(decks: Seq<DeckInfo>, id: Seq<char>) -> Option<DeckInfo>
    decreases decks.len(),
{
    if decks.len() == 0 {
        None
    } else if decks[0].id@ == id {
        Some(decks[0])
    } else {
        deck_named(decks.drop_first(), id)
    }
}

pub open spec fn unknown_deck_message(id: Seq<char>) -> Seq<char> {
    "roster names unknown deck fixture `"@ + id + "`"@
}

pub open spec fn no_archetype_message(id: Seq<char>) -> Seq<char> {
    "deck `"@ + id + "` declares no archetype, so no archetype pilot can fly it"@
}

pub open spec fn unknown_archetype_message(id: Seq<char>, archetype: Seq<char>) -> Seq<char> {
    "deck `"@ + id + "` names unknown archetype `"@ + archetype + "`"@
}

/// The archetype a deck fixture declares, or why it cannot be flown.
pub open spec fn archetype_of_spec(decks: Seq<DeckInfo>, id: Seq<char>) -> Result<Archetype, Seq<char>> {
    match deck_named(decks, id) {
        None => Err(unknown_deck_message(id)),
        Some(deck) => if deck.archetype@.len() == 0 {
            Err(no_archetype_message(id))
        } else {
            match Archetype::parse_view(deck.archetype@) {
                Some(archetype) => Ok(archetype),
                None => Err(unknown_archetype_message(id, deck.archetype@)),
            }
        },
    }
}

/// Resolves the archetype of the deck fixture named `id`.
pub fn archetype_of(decks: &Vec<DeckInfo>, id: &str) -> (resolved: Result<Archetype, String>)
    ensures
        agrees(resolved, archetype_of_spec(decks@, id@)),
{
    let mut i: usize = 0;
    assert(decks@.subrange(0, decks@.len() as int) =~= decks@);
    while i < decks.len()
        invariant
            i <= decks@.len(),
            deck_named(decks@, id@) == deck_named(decks@.subrange(i as int, decks@.len() as int), id@),
        decreases decks@.len() - i,
    {
        let deck = &decks[i];
        proof {
            let rest = decks@.subrange(i as int, decks@.len() as int);
            assert(rest[0] == decks@[i as int]);
            assert(rest.drop_first() =~= decks@.subrange(i + 1, decks@.len() as int));
        }
        if text_eq(deck.id.as_str(), id) {
            if deck.archetype.as_str().is_empty() {
                let mut message = String::new();
                push_text(&mut message, "deck `");
                push_text(&mut message, id);
                push_text(&mut message, "` declares no archetype, so no archetype pilot can fly it");
                return Err(message);
            }
            match Archetype::parse(deck.archetype.as_str()) {
                Some(archetype) => {
                    return Ok(archetype);
                },
                None => {
                    let mut message = String::new();
                    push_text(&mut message, "deck `");
                    push_text(&mut message, id);
                    push_text(&mut message, "` names unknown archetype `");
                    push_text(&mut message, deck.archetype.as_str());
                    push_text(&mut message, "`");
                    return Err(message);
                },
            }
        }
        i = i + 1;
    }
    assert(decks@.subrange(decks@.len() as int, decks@.len() as int) =~= Seq::<DeckInfo>::empty());
    let mut message = String::new();
    push_text(&mut message, "roster names unknown deck fixture `");
    push_text(&mut message, id);
    push_text(&mut message, "`");
    Err(message)
}

/// Every pilot generation's identifier, separated by single spaces.
pub open spec fn joined_ids(versions: Seq<PolicyVersion>) -> Seq<char>
    decreases versions.len(),
{
    if versions.len() == 0 {
        Seq::empty()
    } else if versions.len() == 1 {
        versions[0].id_view()
    } else {
        joined_ids(versions.drop_last()) + seq![' '] + versions.last().id_view()
    }
}

/// Every pilot generation, oldest first.
pub open spec fn all_versions() -> Seq<PolicyVersion> {
    seq![
        PolicyVersion::V1,
        PolicyVersion::V2,
        PolicyVersion::V3,
        PolicyVersion::V4,
        PolicyVersion::V5,
        PolicyVersion::V6,
        PolicyVersion::V7,
        PolicyVersion::V8,
    ]
}

pub open spec fn unknown_pilot_message(context: Seq<char>, value: Seq<char>) -> Seq<char> {
    context + " names unknown pilot `"@ + value + "`; known: "@ + joined_ids(all_versions())
}

/// The pilot generation `value` names, or why it names none.
pub open spec fn pilot_of_spec(value: Seq<char>, context: Seq<char>) -> Result<PolicyVersion, Seq<char>> {
    match PolicyVersion::parse_view(value) {
        Some(version) => Ok(version),
        None => Err(unknown_pilot_message(context, value)),
    }
}

/// Resolves a pilot generation named in the roster; `context` says where.
pub fn pilot_of(value: &str, context: &str) -> (resolved: Result<PolicyVersion, String>)
    ensures
        agrees(resolved, pilot_of_spec(value@, context@)),
{
    match PolicyVersion::parse(value) {
        Some(version) => Ok(version),
        None => {
            let mut message = String::new();
            push_text(&mut message, context);
            push_text(&mut message, " names unknown pilot `");
            push_text(&mut message, value);
            push_text(&mut message, "`; known: ");
            let ghost start = message@;
            let all = PolicyVersion::ALL;
            let mut i: usize = 0;
            while i < all.len()
                invariant
                    i <= 8,
                    all@ == all_versions(),
                    message@ == start + joined_ids(all_versions().take(i as int)),
                decreases 8 - i,
            {
                if i > 0 {
                    push_char(&mut message, ' ');
                }
                push_text(&mut message, all[i].id());
                proof {
                    let prefix = all_versions().take(i as int + 1);
                    assert(prefix.drop_last() =~= all_versions().take(i as int));
                }
                i = i + 1;
            }
            assert(all_versions().take(8) =~= all_versions());
            Err(message)
        },
    }
}


pub open spec fn duplicate_opponent_message(id: Seq<char>) -> Seq<char> {
    "duplicate opponent id `"@ + id + "`"@
}

pub open spec fn opponent_context(id: Seq<char>) -> Seq<char> {
    "opponent `"@ + id + "`"@
}

pub open spec fn no_opponents_message() -> Seq<char> {
    "roster declares no opponents"@
}

/// Whether one of the first `n` opponent specs carries the id `id`.
pub open spec fn id_seen(specs: Seq<OpponentSpec>, n: int, id: Seq<char>) -> bool {
    exists|j: int| 0 <= j < n && #[trigger] specs[j].id@ == id
}

/// The first `n` opponent specs resolved in order, or the first failure:
/// a repeated id, then an unknown pilot, then an unflyable deck.
pub open spec fn resolve_prefix(specs: Seq<OpponentSpec>, decks: Seq<DeckInfo>, n: int) -> Result<
    Seq<OpponentView>,
    Seq<char>,
>
    decreases n,
{
    if n <= 0 {
        Ok(Seq::empty())
    } else {
        match resolve_prefix(specs, decks, n - 1) {
            Err(message) => Err(message),
            Ok(done) => {
                let spec = specs[n - 1];
                if id_seen(specs, n - 1, spec.id@) {
                    Err(duplicate_opponent_message(spec.id@))
                } else {
                    match pilot_of_spec(spec.pilot@, opponent_context(spec.id@)) {
                        Err(message) => Err(message),
                        Ok(pilot) => match archetype_of_spec(decks, spec.deck@) {
                            Err(message) => Err(message),
                            Ok(archetype) => Ok(done.push((spec.id@, spec.deck@, pilot, archetype))),
                        },
                    }
                }
            },
        }
    }
}

/// Every opponent spec resolved, or why the roster's opponents are unusable.
pub open spec fn resolve_opponents_spec(specs: Seq<OpponentSpec>, decks: Seq<DeckInfo>) -> Result<
    Seq<OpponentView>,
    Seq<char>,
> {
    match resolve_prefix(specs, decks, specs.len() as int) {
        Err(message) => Err(message),
        Ok(opponents) => if opponents.len() == 0 {
            Err(no_opponents_message())
        } else {
            Ok(opponents)
        },
    }
}

/// Once a prefix fails, every longer prefix fails the same way.
proof fn lemma_failure_sticks(specs: Seq<OpponentSpec>, decks: Seq<DeckInfo>, n: int, m: int)
    requires
        0 <= n <= m,
        resolve_prefix(specs, decks, n) is Err,
    ensures
        resolve_prefix(specs, decks, m) == resolve_prefix(specs, decks, n),
    decreases m - n,
{
    if n < m {
        lemma_failure_sticks(specs, decks, n, m - 1);
    }
}

/// A resolved prefix holds one opponent per spec.
proof fn lemma_resolved_length(decks: Seq<DeckInfo>, specs: Seq<OpponentSpec>, n: int)
    requires
        0 <= n,
    ensures
        resolve_prefix(specs, decks, n) is Ok ==> resolve_prefix(specs, decks, n)->Ok_0.len() == n,
    decreases n,
{
    if n > 0 {
        lemma_resolved_length(decks, specs, n - 1);
    }
}

/// Resolves the roster's opponent specs against the deck fixtures, in order.
pub fn resolve_opponents(specs: &Vec<OpponentSpec>, decks: &Vec<DeckInfo>) -> (resolved: Result<
    Vec<Opponent>,
    String,
>)
    ensures
        match resolved {
            Ok(opponents) => resolve_opponents_spec(specs@, decks@) == Ok::<Seq<OpponentView>, Seq<char>>(
                opponent_views(opponents@),
            ),
            Err(message) => resolve_opponents_spec(specs@, decks@) == Err::<Seq<OpponentView>, Seq<char>>(
                message@,
            ),
        },
{
    let mut opponents: Vec<Opponent> = Vec::new();
    let mut i: usize = 0;
    assert(opponent_views(opponents@) =~= Seq::<OpponentView>::empty());
    while i < specs.len()
        invariant
            i <= specs@.len(),
            resolve_prefix(specs@, decks@, i as int) == Ok::<Seq<OpponentView>, Seq<char>>(
                opponent_views(opponents@),
            ),
            opponents@.len() == i,
        decreases specs@.len() - i,
    {
        let spec = &specs[i];
        let mut j: usize = 0;
        while j < i
            invariant
                j <= i < specs@.len(),
                *spec == specs@[i as int],
                forall|k: int| 0 <= k < j ==> specs@[k].id@ != spec.id@,
                resolve_prefix(specs@, decks@, i as int) == Ok::<Seq<OpponentView>, Seq<char>>(
                    opponent_views(opponents@),
                ),
            decreases i - j,
        {
            if text_eq(specs[j].id.as_str(), spec.id.as_str()) {
                let mut message = String::new();
                push_text(&mut message, "duplicate opponent id `");
                push_text(&mut message, spec.id.as_str());
                push_text(&mut message, "`");
                proof {
                    assert(specs@[j as int].id@ == spec.id@);
                    assert(id_seen(specs@, i as int, spec.id@));
                    assert(message@ == duplicate_opponent_message(spec.id@));
                    assert(specs@[(i + 1) - 1] == *spec);
                    assert(resolve_prefix(specs@, decks@, i + 1) == Err::<Seq<OpponentView>, Seq<char>>(
                        message@,
                    ));
                    lemma_failure_sticks(specs@, decks@, i + 1, specs@.len() as int);
                }
                return Err(message);
            }
            j = j + 1;
        }
        let mut context = String::new();
        push_text(&mut context, "opponent `");
        push_text(&mut context, spec.id.as_str());
        push_text(&mut context, "`");
        let pilot = match pilot_of(spec.pilot.as_str(), context.as_str()) {
            Ok(pilot) => pilot,
            Err(message) => {
                proof {
                    lemma_failure_sticks(specs@, decks@, i + 1, specs@.len() as int);
                }
                return Err(message);
            },
        };
        let archetype = match archetype_of(decks, spec.deck.as_str()) {
            Ok(archetype) => archetype,
            Err(message) => {
                proof {
                    lemma_failure_sticks(specs@, decks@, i + 1, specs@.len() as int);
                }
                return Err(message);
            },
        };
        let opponent = Opponent { id: spec.id.clone(), deck: spec.deck.clone(), pilot, archetype };
        let ghost before = opponents@;
        opponents.push(opponent);
        proof {
            assert(opponents@ =~= before.push(opponent));
            assert(opponent_views(opponents@) =~= opponent_views(before).push(opponent@));
        }
        i = i + 1;
    }
    if opponents.len() == 0 {
        return Err("roster declares no opponents".to_owned());
    }
    Ok(opponents)
}


// ---------------------------------------------------------------------------
// Resolving a roster into a surface
// ---------------------------------------------------------------------------

/// The train block of the committed roster: opponents in the clear.
#[derive(Clone, Debug)]
pub struct TrainBlock {
    pub opponents: Vec<OpponentSpec>,
    pub seeds: u32,
    pub cell_count: usize,
}

/// The held-out block of the committed roster: counts and a digest only.
#[derive(Clone, Debug)]
pub struct HeldoutBlock {
    pub manifest: String,
    pub sha256: String,
    pub opponent_count: usize,
    pub seeds: u32,
    pub cell_count: usize,
}

/// The committed roster file.
#[derive(Clone, Debug)]
pub struct RosterFile {
    pub schema_version: String,
    pub roster_id: String,
    pub task_id: String,
    pub reference: ReferenceSpec,
    pub candidate_deck_pool: Vec<String>,
    pub train: TrainBlock,
    pub heldout: HeldoutBlock,
    pub score_metric: String,
}

/// The sealed held-out manifest.
#[derive(Clone, Debug)]
pub struct HeldoutManifest {
    pub schema_version: String,
    pub split: String,
    pub opponents: Vec<OpponentSpec>,
    pub seeds: u32,
    pub cell_count: usize,
}

/// What reading the sealed manifest gave: the digest its canonical form
/// hashed to, and the manifest itself or why it has the wrong shape.
#[derive(Debug)]
pub struct SealedManifest {
    pub digest: String,
    pub manifest: Result<HeldoutManifest, String>,
}

/// Why a manifest text has no canonical form.
#[derive(Clone, Debug, PartialEq, Eq)]
pub enum JsonFailure {
    /// The text is not JSON; the parser's explanation.
    NotJson(String),
    /// The parsed value could not be written back; the writer's explanation.
    NotWritable(String),
}

/// The canonical form of a JSON text: the value it holds written back
/// compactly, object keys in sorted order; `None` when that fails.
pub uninterp spec fn canonical_json_of(raw: Seq<char>) -> Option<Seq<char>>;

/// Puts a JSON text in canonical form.
///
/// Trusted: parses `raw` with `serde_json::from_str` into a
/// `serde_json::Value`, whose objects keep their keys sorted, and writes the
/// value back with `serde_json::to_string`. The contract claims that the
/// outcome depends on `raw` alone: the canonical text is
/// [`canonical_json_of`] of it, and a failure of either step is that name's
/// `None`. What serde_json's error messages say is not stated.
#[verifier::external_body]
fn canonical_json(raw: &str) -> (canonical: Result<String, JsonFailure>)
    ensures
        match canonical {
            Ok(text) => canonical_json_of(raw@) == Some(text@),
            Err(_) => canonical_json_of(raw@) is None,
        },
{
    match serde_json::from_str::<serde_json::Value>(raw) {
        Err(error) => Err(JsonFailure::NotJson(error.to_string())),
        Ok(value) => match serde_json::to_string(&value) {
            Ok(text) => Ok(text),
            Err(error) => Err(JsonFailure::NotWritable(error.to_string())),
        },
    }
}

/// The message a failed canonicalisation of the sealed manifest reports.
pub open spec fn failure_message_spec(failure: JsonFailure) -> Seq<char> {
    match failure {
        JsonFailure::NotJson(detail) => "cannot parse sealed manifest: "@ + detail@,
        JsonFailure::NotWritable(detail) => "cannot canonicalise manifest: "@ + detail@,
    }
}

/// The message a failed canonicalisation of the sealed manifest reports.
pub fn failure_message(failure: &JsonFailure) -> (message: String)
    ensures
        message@ == failure_message_spec(*failure),
{
    let mut message = String::new();
    match failure {
        JsonFailure::NotJson(detail) => {
            push_text(&mut message, "cannot parse sealed manifest: ");
            push_text(&mut message, detail.as_str());
        },
        JsonFailure::NotWritable(detail) => {
            push_text(&mut message, "cannot canonicalise manifest: ");
            push_text(&mut message, detail.as_str());
        },
    }
    message
}

/// The canonical text of the sealed manifest, which its digest is taken of.
///
/// # Errors
///
/// `cannot parse sealed manifest: ...` when `raw` is not JSON, and
/// `cannot canonicalise manifest: ...` when its value cannot be written back.
pub fn canonical_manifest(raw: &str) -> (canonical: Result<String, String>)
    ensures
        match canonical {
            Ok(text) => canonical_json_of(raw@) == Some(text@),
            Err(message) => canonical_json_of(raw@) is None && exists|failure: JsonFailure|
                message@ == failure_message_spec(failure),
        },
{
    match canonical_json(raw) {
        Ok(text) => Ok(text),
        Err(failure) => {
            let message = failure_message(&failure);
            Err(message)
        },
    }
}

/// The mathematical value of an entrant.
pub type EntrantView = (Seq<char>, Seq<char>, PolicyVersion, Archetype);

impl View for Entrant {
    type V = EntrantView;

    open spec fn view(&self) -> EntrantView {
        (self.label@, self.deck@, self.pilot, self.archetype)
    }
}

/// The mathematical value of a surface.
pub struct SurfaceView {
    pub split: Split,
    pub roster_id: Seq<char>,
    pub task_id: Seq<char>,
    pub score_metric: Seq<char>,
    pub manifest_sha256: Option<Seq<char>>,
    pub reference: EntrantView,
    pub opponents: Seq<OpponentView>,
    pub seeds: u32,
    pub candidate_deck_pool: Seq<Seq<char>>,
}

/// The views of a list of strings.
pub open spec fn text_views(texts: Seq<String>) -> Seq<Seq<char>> {
    texts.map_values(|text: String| text@)
}

impl View for Surface {
    type V = SurfaceView;

    open spec fn view(&self) -> SurfaceView {
        SurfaceView {
            split: self.split,
            roster_id: self.roster_id@,
            task_id: self.task_id@,
            score_metric: self.score_metric@,
            manifest_sha256: match self.manifest_sha256 {
                Some(digest) => Some(digest@),
                None => None,
            },
            reference: self.reference@,
            opponents: opponent_views(self.opponents@),
            seeds: self.seeds,
            candidate_deck_pool: text_views(self.candidate_deck_pool@),
        }
    }
}

pub open spec fn roster_schema_message(found: Seq<char>) -> Seq<char> {
    "roster schema `"@ + found + "` is not `"@ + ROSTER_SCHEMA@ + "`"@
}

pub open spec fn reference_mismatch_message(label: Seq<char>, pilot: PolicyVersion) -> Seq<char> {
    "roster reference `"@ + label + "`/`"@ + pilot.id_view() + "` does not match the frozen reference `"@
        + REFERENCE_ID@ + "`/`"@ + REFERENCE_VERSION.id_view()
        + "`; the ranking origin is defined in code, not in the roster"@
}

pub open spec fn digest_mismatch_message(digest: Seq<char>, pin: Seq<char>) -> Seq<char> {
    "sealed heldout manifest sha256 "@ + digest + " does not match the committed roster pin "@ + pin
        + "; the heldout surface moved and no score from it is comparable"@
}

pub open spec fn manifest_schema_message(found: Seq<char>) -> Seq<char> {
    "sealed manifest schema `"@ + found + "` is not `"@ + HELDOUT_SCHEMA@ + "`"@
}

pub open spec fn manifest_split_message(found: Seq<char>) -> Seq<char> {
    "sealed manifest declares split `"@ + found + "`, not `heldout`"@
}

pub open spec fn opponent_count_message(found: nat, published: nat) -> Seq<char> {
    "sealed manifest has "@ + decimal(found) + " opponents, roster publishes "@ + decimal(published)
}

pub open spec fn seeds_message(found: nat, published: nat) -> Seq<char> {
    "sealed manifest seeds "@ + decimal(found) + " != roster seeds "@ + decimal(published)
}

pub open spec fn cells_message(found: nat, published: nat) -> Seq<char> {
    "sealed manifest publishes "@ + decimal(found) + " cells, roster pins "@ + decimal(published)
}

pub open spec fn cell_count_message(split: Split, count: nat, declared: nat) -> Seq<char> {
    split.id_view() + " surface enumerates "@ + decimal(count) + " cells but the manifest publishes "@
        + decimal(declared)
}

pub open spec fn zero_seeds_message() -> Seq<char> {
    "a surface with zero seeds measures nothing"@
}

/// The first deck of the first `n` in the candidate pool that no archetype
/// pilot can fly, with the reason.
pub open spec fn pool_failure(decks: Seq<DeckInfo>, pool: Seq<String>, n: int) -> Option<Seq<char>>
    decreases n,
{
    if n <= 0 {
        None
    } else {
        match pool_failure(decks, pool, n - 1) {
            Some(message) => Some(message),
            None => match archetype_of_spec(decks, pool[n - 1]@) {
                Err(message) => Some(message),
                Ok(_) => None,
            },
        }
    }
}

/// The roster's reference entrant, once the schema, the deck fixtures, the
/// reference itself and the candidate pool have all been checked.
pub open spec fn reference_spec(roster: RosterFile, decks: Result<Vec<DeckInfo>, String>) -> Result<
    EntrantView,
    Seq<char>,
> {
    if roster.schema_version@ != ROSTER_SCHEMA@ {
        Err(roster_schema_message(roster.schema_version@))
    } else {
        match decks {
            Err(message) => Err(message@),
            Ok(decks) => match pilot_of_spec(roster.reference.pilot@, "reference"@) {
                Err(message) => Err(message),
                Ok(pilot) => match archetype_of_spec(decks@, roster.reference.deck@) {
                    Err(message) => Err(message),
                    Ok(archetype) => if roster.reference.id@ != REFERENCE_ID@ || pilot != REFERENCE_VERSION {
                        Err(reference_mismatch_message(roster.reference.id@, pilot))
                    } else {
                        match pool_failure(
                            decks@,
                            roster.candidate_deck_pool@,
                            roster.candidate_deck_pool@.len() as int,
                        ) {
                            Some(message) => Err(message),
                            None => Ok((roster.reference.id@, roster.reference.deck@, pilot, archetype)),
                        }
                    },
                },
            },
        }
    }
}

/// What a split resolves to: its opponents, seeds, the cell count it
/// publishes and, for the held-out split, the digest it hashed to.
pub type SplitView = (Seq<OpponentView>, u32, usize, Option<Seq<char>>);

/// Resolves one split, given the deck fixtures and, for the held-out split,
/// what reading the sealed manifest gave.
pub open spec fn split_spec(
    roster: RosterFile,
    split: Split,
    decks: Seq<DeckInfo>,
    sealed: Option<Result<SealedManifest, String>>,
) -> Result<SplitView, Seq<char>> {
    match split {
        Split::Train => match resolve_opponents_spec(roster.train.opponents@, decks) {
            Err(message) => Err(message),
            Ok(opponents) => Ok((opponents, roster.train.seeds, roster.train.cell_count, None)),
        },
        Split::Heldout => match sealed {
            None => Err(Seq::empty()),
            Some(Err(message)) => Err(message@),
            Some(Ok(read)) => if read.digest@ != roster.heldout.sha256@ {
                Err(digest_mismatch_message(read.digest@, roster.heldout.sha256@))
            } else {
                match read.manifest {
                    Err(message) => Err(message@),
                    Ok(manifest) => if manifest.schema_version@ != HELDOUT_SCHEMA@ {
                        Err(manifest_schema_message(manifest.schema_version@))
                    } else if manifest.split@ != "heldout"@ {
                        Err(manifest_split_message(manifest.split@))
                    } else if manifest.opponents@.len() != roster.heldout.opponent_count {
                        Err(
                            opponent_count_message(
                                manifest.opponents@.len(),
                                roster.heldout.opponent_count as nat,
                            ),
                        )
                    } else if manifest.seeds != roster.heldout.seeds {
                        Err(seeds_message(manifest.seeds as nat, roster.heldout.seeds as nat))
                    } else if manifest.cell_count != roster.heldout.cell_count {
                        Err(cells_message(manifest.cell_count as nat, roster.heldout.cell_count as nat))
                    } else {
                        match resolve_opponents_spec(manifest.opponents@, decks) {
                            Err(message) => Err(message),
                            Ok(opponents) => Ok(
                                (opponents, manifest.seeds, manifest.cell_count, Some(read.digest@)),
                            ),
                        }
                    },
                }
            },
        },
    }
}

/// A roster resolved into a surface, or the first check it fails.
pub open spec fn resolve_surface_spec(
    roster: RosterFile,
    split: Split,
    decks: Result<Vec<DeckInfo>, String>,
    sealed: Option<Result<SealedManifest, String>>,
) -> Result<SurfaceView, Seq<char>> {
    match reference_spec(roster, decks) {
        Err(message) => Err(message),
        Ok(reference) => match split_spec(roster, split, decks->Ok_0@, sealed) {
            Err(message) => Err(message),
            Ok((opponents, seeds, declared, digest)) => {
                let count = opponents.len() * 2 * seeds;
                if count != declared {
                    Err(cell_count_message(split, count as nat, declared as nat))
                } else if seeds == 0 {
                    Err(zero_seeds_message())
                } else {
                    Ok(
                        SurfaceView {
                            split,
                            roster_id: roster.roster_id@,
                            task_id: roster.task_id@,
                            score_metric: roster.score_metric@,
                            manifest_sha256: digest,
                            reference,
                            opponents,
                            seeds,
                            candidate_deck_pool: text_views(roster.candidate_deck_pool@),
                        },
                    )
                }
            },
        },
    }
}

/// Whether a list of `len` opponents over `seeds` seeds has a cell count
/// that fits the machine's word.
pub open spec fn count_fits(len: nat, seeds: u32) -> bool {
    len * 2 <= usize::MAX && len * 2 * seeds <= usize::MAX
}


proof fn lemma_pool_failure_sticks(decks: Seq<DeckInfo>, pool: Seq<String>, n: int, m: int)
    requires
        0 <= n <= m,
        pool_failure(decks, pool, n) is Some,
    ensures
        pool_failure(decks, pool, m) == pool_failure(decks, pool, n),
    decreases m - n,
{
    if n < m {
        lemma_pool_failure_sticks(decks, pool, n, m - 1);
    }
}

/// The first deck of the candidate pool that no archetype pilot can fly.
fn check_pool(decks: &Vec<DeckInfo>, pool: &Vec<String>) -> (failure: Option<String>)
    ensures
        match failure {
            None => pool_failure(decks@, pool@, pool@.len() as int) is None,
            Some(message) => pool_failure(decks@, pool@, pool@.len() as int) == Some(message@),
        },
{
    let mut i: usize = 0;
    while i < pool.len()
        invariant
            i <= pool@.len(),
            pool_failure(decks@, pool@, i as int) is None,
        decreases pool@.len() - i,
    {
        match archetype_of(decks, pool[i].as_str()) {
            Ok(_) => {},
            Err(message) => {
                proof {
                    lemma_pool_failure_sticks(decks@, pool@, i + 1, pool@.len() as int);
                }
                return Some(message);
            },
        }
        i = i + 1;
    }
    None
}

/// Checks the roster's schema, its reference and its candidate pool against
/// the deck fixtures, and resolves the reference entrant.
pub fn resolve_reference(roster: &RosterFile, decks: &Result<Vec<DeckInfo>, String>) -> (resolved: Result<
    Entrant,
    String,
>)
    ensures
        match resolved {
            Ok(entrant) => reference_spec(*roster, *decks) == Ok::<EntrantView, Seq<char>>(entrant@),
            Err(message) => reference_spec(*roster, *decks) == Err::<EntrantView, Seq<char>>(message@),
        },
{
    if !text_eq(roster.schema_version.as_str(), ROSTER_SCHEMA) {
        let mut message = String::new();
        push_text(&mut message, "roster schema `");
        push_text(&mut message, roster.schema_version.as_str());
        push_text(&mut message, "` is not `");
        push_text(&mut message, ROSTER_SCHEMA);
        push_text(&mut message, "`");
        return Err(message);
    }
    let decks = match decks {
        Ok(decks) => decks,
        Err(message) => {
            return Err(message.clone());
        },
    };
    let pilot = match pilot_of(roster.reference.pilot.as_str(), "reference") {
        Ok(pilot) => pilot,
        Err(message) => {
            return Err(message);
        },
    };
    let archetype = match archetype_of(decks, roster.reference.deck.as_str()) {
        Ok(archetype) => archetype,
        Err(message) => {
            return Err(message);
        },
    };
    if !text_eq(roster.reference.id.as_str(), REFERENCE_ID) || pilot != REFERENCE_VERSION {
        let mut message = String::new();
        push_text(&mut message, "roster reference `");
        push_text(&mut message, roster.reference.id.as_str());
        push_text(&mut message, "`/`");
        push_text(&mut message, pilot.id());
        push_text(&mut message, "` does not match the frozen reference `");
        push_text(&mut message, REFERENCE_ID);
        push_text(&mut message, "`/`");
        push_text(&mut message, REFERENCE_VERSION.id());
        push_text(&mut message, "`; the ranking origin is defined in code, not in the roster");
        return Err(message);
    }
    match check_pool(decks, &roster.candidate_deck_pool) {
        Some(message) => Err(message),
        None => Ok(
            Entrant {
                label: roster.reference.id.clone(),
                deck: roster.reference.deck.clone(),
                pilot,
                archetype,
            },
        ),
    }
}


/// The views of a resolved split.
pub open spec fn split_view(resolved: (Vec<Opponent>, u32, usize, Option<String>)) -> SplitView {
    (
        opponent_views(resolved.0@),
        resolved.1,
        resolved.2,
        match resolved.3 {
            Some(digest) => Some(digest@),
            None => None,
        },
    )
}

/// Resolves the opponents of one split. For the held-out split, `sealed` is
/// what reading the sealed manifest gave; its digest must match the
/// committed pin and its counts must match the ones the roster publishes.
pub fn resolve_split(
    roster: &RosterFile,
    split: Split,
    decks: &Vec<DeckInfo>,
    sealed: &Option<Result<SealedManifest, String>>,
) -> (resolved: Result<(Vec<Opponent>, u32, usize, Option<String>), String>)
    requires
        split == Split::Heldout ==> sealed is Some,
    ensures
        match resolved {
            Ok(found) => split_spec(*roster, split, decks@, *sealed) == Ok::<SplitView, Seq<char>>(
                split_view(found),
            ),
            Err(message) => split_spec(*roster, split, decks@, *sealed) == Err::<SplitView, Seq<char>>(
                message@,
            ),
        },
{
    match split {
        Split::Train => match resolve_opponents(&roster.train.opponents, decks) {
            Ok(opponents) => Ok((opponents, roster.train.seeds, roster.train.cell_count, None)),
            Err(message) => Err(message),
        },
        Split::Heldout => {
            let read = match sealed {
                Some(Ok(read)) => read,
                Some(Err(message)) => {
                    return Err(message.clone());
                },
                None => {
                    return Err(String::new());
                },
            };
            if !text_eq(read.digest.as_str(), roster.heldout.sha256.as_str()) {
                let mut message = String::new();
                push_text(&mut message, "sealed heldout manifest sha256 ");
                push_text(&mut message, read.digest.as_str());
                push_text(&mut message, " does not match the committed roster pin ");
                push_text(&mut message, roster.heldout.sha256.as_str());
                push_text(&mut message, "; the heldout surface moved and no score from it is comparable");
                return Err(message);
            }
            let manifest = match &read.manifest {
                Ok(manifest) => manifest,
                Err(message) => {
                    return Err(message.clone());
                },
            };
            if !text_eq(manifest.schema_version.as_str(), HELDOUT_SCHEMA) {
                let mut message = String::new();
                push_text(&mut message, "sealed manifest schema `");
                push_text(&mut message, manifest.schema_version.as_str());
                push_text(&mut message, "` is not `");
                push_text(&mut message, HELDOUT_SCHEMA);
                push_text(&mut message, "`");
                return Err(message);
            }
            if !text_eq(manifest.split.as_str(), "heldout") {
                let mut message = String::new();
                push_text(&mut message, "sealed manifest declares split `");
                push_text(&mut message, manifest.split.as_str());
                push_text(&mut message, "`, not `heldout`");
                return Err(message);
            }
            if manifest.opponents.len() != roster.heldout.opponent_count {
                let mut message = String::new();
                push_text(&mut message, "sealed manifest has ");
                push_decimal(&mut message, manifest.opponents.len() as u64);
                push_text(&mut message, " opponents, roster publishes ");
                push_decimal(&mut message, roster.heldout.opponent_count as u64);
                return Err(message);
            }
            if manifest.seeds != roster.heldout.seeds {
                let mut message = String::new();
                push_text(&mut message, "sealed manifest seeds ");
                push_decimal(&mut message, manifest.seeds as u64);
                push_text(&mut message, " != roster seeds ");
                push_decimal(&mut message, roster.heldout.seeds as u64);
                return Err(message);
            }
            if manifest.cell_count != roster.heldout.cell_count {
                let mut message = String::new();
                push_text(&mut message, "sealed manifest publishes ");
                push_decimal(&mut message, manifest.cell_count as u64);
                push_text(&mut message, " cells, roster pins ");
                push_decimal(&mut message, roster.heldout.cell_count as u64);
                return Err(message);
            }
            match resolve_opponents(&manifest.opponents, decks) {
                Ok(opponents) => Ok(
                    (opponents, manifest.seeds, manifest.cell_count, Some(read.digest.clone())),
                ),
                Err(message) => Err(message),
            }
        },
    }
}

/// Resolves one split of a roster into the concrete surface a sweep must
/// cover, failing closed on the first check the roster does not pass.
///
/// `decks` is what loading the playable deck fixtures gave. For the held-out
/// split, `sealed` is what reading the sealed manifest gave.
pub fn resolve_surface(
    roster: RosterFile,
    split: Split,
    decks: Result<Vec<DeckInfo>, String>,
    sealed: Option<Result<SealedManifest, String>>,
) -> (resolved: Result<Surface, String>)
    requires
        split == Split::Heldout ==> sealed is Some,
        split == Split::Train ==> count_fits(roster.train.opponents@.len(), roster.train.seeds),
        split == Split::Heldout ==> match sealed {
            Some(Ok(read)) => match read.manifest {
                Ok(manifest) => count_fits(manifest.opponents@.len(), manifest.seeds),
                Err(_) => true,
            },
            _ => true,
        },
    ensures
        match resolved {
            Ok(surface) => resolve_surface_spec(roster, split, decks, sealed) == Ok::<SurfaceView, Seq<char>>(
                surface@,
            ),
            Err(message) => resolve_surface_spec(roster, split, decks, sealed) == Err::<
                SurfaceView,
                Seq<char>,
            >(message@),
        },
{
    let reference = match resolve_reference(&roster, &decks) {
        Ok(reference) => reference,
        Err(message) => {
            return Err(message);
        },
    };
    let fixtures = match &decks {
        Ok(fixtures) => fixtures,
        Err(message) => {
            return Err(message.clone());
        },
    };
    let resolved = resolve_split(&roster, split, fixtures, &sealed);
    let (opponents, seeds, declared, digest) = match resolved {
        Ok(found) => found,
        Err(message) => {
            return Err(message);
        },
    };
    proof {
        match split {
            Split::Train => {
                lemma_resolved_length(fixtures@, roster.train.opponents@, roster.train.opponents@.len() as int);
            },
            Split::Heldout => {
                let manifest = sealed->Some_0->Ok_0.manifest->Ok_0;
                lemma_resolved_length(fixtures@, manifest.opponents@, manifest.opponents@.len() as int);
            },
        }
    }
    let surface = Surface {
        split,
        roster_id: roster.roster_id,
        task_id: roster.task_id,
        score_metric: roster.score_metric,
        manifest_sha256: digest,
        reference,
        opponents,
        seeds,
        candidate_deck_pool: roster.candidate_deck_pool,
    };
    let count = surface.cell_count();
    if count != declared {
        let mut message = String::new();
        push_text(&mut message, split.id());
        push_text(&mut message, " surface enumerates ");
        push_decimal(&mut message, count as u64);
        push_text(&mut message, " cells but the manifest publishes ");
        push_decimal(&mut message, declared as u64);
        return Err(message);
    }
    if surface.seeds == 0 {
        return Err("a surface with zero seeds measures nothing".to_owned());
    }
    Ok(surface)
}


// ---------------------------------------------------------------------------
// Laws of the surface
// ---------------------------------------------------------------------------

/// Where cell `k` of the surface sits: opponent `o`, seat `s` (0 on the play),
/// seed `seed`, at index `o * 2 * seeds + s * seeds + seed`.
pub proof fn lemma_cell_position(
    entrant: Entrant,
    opponents: Seq<OpponentView>,
    seeds: nat,
    n: int,
    k: int,
) -> (position: (int, int, int))
    requires
        0 <= n <= opponents.len(),
        0 <= k < surface_cells(entrant, opponents, seeds, n).len(),
    ensures
        0 <= position.0 < n,
        0 <= position.1 < 2,
        0 <= position.2 < seeds,
        k == position.0 * 2 * seeds + position.1 * seeds + position.2,
        surface_cells(entrant, opponents, seeds, n)[k] == cell_of(
            entrant,
            opponents[position.0],
            if position.1 == 0 {
                Seat::Play
            } else {
                Seat::Draw
            },
            position.2,
        ),
    decreases n,
{
    cells_match_cell_count(entrant, opponents, seeds, n);
    cells_match_cell_count(entrant, opponents, seeds, n - 1);
    let rest = surface_cells(entrant, opponents, seeds, n - 1);
    let block = opponent_block(entrant, opponents[n - 1], seeds);
    assert(surface_cells(entrant, opponents, seeds, n) == rest + block);
    if k < rest.len() {
        lemma_cell_position(entrant, opponents, seeds, n - 1, k)
    } else {
        let offset = k - rest.len();
        assert(rest.len() == (n - 1) * 2 * seeds);
        if offset < seeds {
            assert(k == (n - 1) * 2 * seeds + 0 * seeds + offset);
            (n - 1, 0, offset)
        } else {
            assert(k == (n - 1) * 2 * seeds + 1 * seeds + (offset - seeds));
            assert(offset < 2 * seeds) by (nonlinear_arith)
                requires
                    offset == k - (n - 1) * 2 * seeds,
                    k < n * 2 * seeds,
            ;
            (n - 1, 1, offset - seeds)
        }
    }
}

/// No two cells of a surface share a cell id when its opponents carry
/// distinct ids without the `|` separator, so coverage can be checked
/// against the set of ids.
pub proof fn surface_cell_ids_are_distinct(
    entrant: Entrant,
    opponents: Seq<OpponentView>,
    seeds: nat,
    i: int,
    j: int,
)
    requires
        forall|a: int, b: int|
            0 <= a < b < opponents.len() ==> #[trigger] opponents[a].0 != #[trigger] opponents[b].0,
        forall|a: int| 0 <= a < opponents.len() ==> no_bar(#[trigger] opponents[a].0),
        seeds <= u32::MAX,
        0 <= i < j < surface_cells(entrant, opponents, seeds, opponents.len() as int).len(),
    ensures
        cell_id_view(surface_cells(entrant, opponents, seeds, opponents.len() as int)[i]) != cell_id_view(
            surface_cells(entrant, opponents, seeds, opponents.len() as int)[j],
        ),
{
    let n = opponents.len() as int;
    let cells = surface_cells(entrant, opponents, seeds, n);
    let left = lemma_cell_position(entrant, opponents, seeds, n, i);
    let right = lemma_cell_position(entrant, opponents, seeds, n, j);
    let (l, r) = (cells[i], cells[j]);
    if cell_id_view(l) == cell_id_view(r) {
        assert(no_bar(opponents[left.0].0) && no_bar(opponents[right.0].0));
        lemma_shared_prefix_ids(l, r);
        if left.0 < right.0 {
            assert(opponents[left.0].0 != opponents[right.0].0);
        } else if right.0 < left.0 {
            assert(opponents[right.0].0 != opponents[left.0].0);
        }
        assert(left.1 == right.1);
        assert(left.2 as u64 == left.2 && right.2 as u64 == right.2);
        assert(left.2 == right.2);
    }
}

/// Two cells of one candidate deck and pilot with the same id, whose opponent
/// ids hold no separator, name the same opponent; with the same opponent
/// deck, they also name the same seat and seed.
proof fn lemma_shared_prefix_ids(l: CellView, r: CellView)
    requires
        l.0 == r.0,
        l.1 == r.1,
        no_bar(l.2),
        no_bar(r.2),
        cell_id_view(l) == cell_id_view(r),
    ensures
        l.2 == r.2,
        l.3 == r.3 ==> l.4 == r.4 && l.5 == r.5,
{
    let head = l.0 + bar() + l.1 + bar();
    let l3 = l.3 + bar() + l.4.id_view() + bar() + decimal(l.5 as nat);
    let r3 = r.3 + bar() + r.4.id_view() + bar() + decimal(r.5 as nat);
    assert(cell_id_view(l) =~= head + (l.2 + bar() + l3));
    assert(cell_id_view(r) =~= head + (r.2 + bar() + r3));
    assert(l.2 + bar() + l3 =~= cell_id_view(l).skip(head.len() as int));
    assert(r.2 + bar() + r3 =~= cell_id_view(r).skip(head.len() as int));
    lemma_split_at_bar(l.2, l3, r.2, r3);
    let l4 = l.4.id_view() + bar() + decimal(l.5 as nat);
    let r4 = r.4.id_view() + bar() + decimal(r.5 as nat);
    assert(l3 =~= l.3 + bar() + l4);
    assert(r3 =~= r.3 + bar() + r4);
    if l.3 == r.3 {
        assert(l4 =~= l3.skip(l.3.len() as int + 1));
        assert(r4 =~= r3.skip(r.3.len() as int + 1));
        lemma_seat_ids(l.4, r.4);
        lemma_seat_ids(r.4, l.4);
        lemma_split_at_bar(l.4.id_view(), decimal(l.5 as nat), r.4.id_view(), decimal(r.5 as nat));
        lemma_decimal_injective(l.5 as nat, r.5 as nat);
    }
}

proof fn lemma_pilot_id_has_no_bar(pilot: PolicyVersion)
    ensures
        no_bar(pilot.id_view()),
{
    reveal_strlit("v1");
    reveal_strlit("v2");
    reveal_strlit("v3");
    reveal_strlit("v4");
    reveal_strlit("v5");
    reveal_strlit("v6");
    reveal_strlit("v7");
    reveal_strlit("v8");
}

/// A resolved prefix keeps the specs' ids in order and never repeats one.
proof fn lemma_resolved_ids(specs: Seq<OpponentSpec>, decks: Seq<DeckInfo>, n: int)
    requires
        0 <= n,
        resolve_prefix(specs, decks, n) is Ok,
    ensures
        resolve_prefix(specs, decks, n)->Ok_0.len() == n,
        forall|k: int| 0 <= k < n ==> #[trigger] resolve_prefix(specs, decks, n)->Ok_0[k].0 == specs[k].id@,
        forall|a: int, b: int| 0 <= a < b < n ==> #[trigger] specs[a].id@ != #[trigger] specs[b].id@,
    decreases n,
{
    if n > 0 {
        lemma_resolved_ids(specs, decks, n - 1);
        assert forall|a: int, b: int| 0 <= a < b < n implies #[trigger] specs[a].id@ != #[trigger] specs[b].id@ by {
            if b == n - 1 && specs[a].id@ == specs[b].id@ {
                assert(id_seen(specs, n - 1, specs[n - 1].id@));
            }
        }
    }
}

/// A roster that resolves never names the same opponent twice: every
/// resolved opponent keeps its spec's id, in order, and the ids are distinct.
pub proof fn resolved_opponents_are_distinct(specs: Seq<OpponentSpec>, decks: Seq<DeckInfo>)
    requires
        resolve_opponents_spec(specs, decks) is Ok,
    ensures
        resolve_opponents_spec(specs, decks)->Ok_0.len() == specs.len(),
        forall|k: int|
            0 <= k < specs.len() ==> #[trigger] resolve_opponents_spec(specs, decks)->Ok_0[k].0 == specs[k].id@,
        forall|a: int, b: int|
            0 <= a < b < specs.len() ==> #[trigger] resolve_opponents_spec(specs, decks)->Ok_0[a].0
                != #[trigger] resolve_opponents_spec(specs, decks)->Ok_0[b].0,
{
    lemma_resolved_ids(specs, decks, specs.len() as int);
}


/// The seat on the other side of the table.
pub open spec fn other_seat(seat: Seat) -> Seat {
    match seat {
        Seat::Play => Seat::Draw,
        Seat::Draw => Seat::Play,
    }
}

/// The cell at opponent `o`, seat `s` (0 on the play) and seed `d` sits at
/// index `o * 2 * seeds + s * seeds + d` of the surface.
proof fn lemma_cell_at(entrant: Entrant, opponents: Seq<OpponentView>, seeds: nat, n: int, o: int, s: int, d: int)
    requires
        0 <= o < n <= opponents.len(),
        0 <= s < 2,
        0 <= d < seeds,
    ensures
        o * 2 * seeds + s * seeds + d < surface_cells(entrant, opponents, seeds, n).len(),
        surface_cells(entrant, opponents, seeds, n)[o * 2 * seeds + s * seeds + d] == cell_of(
            entrant,
            opponents[o],
            if s == 0 {
                Seat::Play
            } else {
                Seat::Draw
            },
            d,
        ),
    decreases n,
{
    cells_match_cell_count(entrant, opponents, seeds, n);
    cells_match_cell_count(entrant, opponents, seeds, n - 1);
    let rest = surface_cells(entrant, opponents, seeds, n - 1);
    let block = opponent_block(entrant, opponents[n - 1], seeds);
    assert(surface_cells(entrant, opponents, seeds, n) == rest + block);
    let at = o * 2 * seeds + s * seeds + d;
    if o < n - 1 {
        lemma_cell_at(entrant, opponents, seeds, n - 1, o, s, d);
    } else {
        assert(at == (n - 1) * 2 * seeds + (s * seeds + d));
        assert(s * seeds + d < 2 * seeds) by (nonlinear_arith)
            requires
                0 <= s < 2,
                0 <= d < seeds,
        ;
        assert(at < n * 2 * seeds) by (nonlinear_arith)
            requires
                at == (n - 1) * 2 * seeds + (s * seeds + d),
                s * seeds + d < 2 * seeds,
        ;
        assert(rest.len() == (n - 1) * 2 * seeds);
        assert(surface_cells(entrant, opponents, seeds, n)[at] == block[s * seeds + d]);
        if s == 0 {
            assert(block[d] == seat_block(entrant, opponents[n - 1], Seat::Play, seeds)[d]);
        } else {
            assert(s * seeds + d == seeds + d);
            assert(block[seeds + d] == seat_block(entrant, opponents[n - 1], Seat::Draw, seeds)[d]);
        }
    }
}

/// Paired seats: every cell of a surface is also played from the other
/// seat, against the same opponent, deck and seed, so the play advantage
/// cancels out of every comparison.
pub proof fn every_cell_is_played_from_both_seats(
    entrant: Entrant,
    opponents: Seq<OpponentView>,
    seeds: nat,
    k: int,
)
    requires
        0 <= k < surface_cells(entrant, opponents, seeds, opponents.len() as int).len(),
    ensures
        exists|j: int|
            0 <= j < surface_cells(entrant, opponents, seeds, opponents.len() as int).len() && {
                let cell = surface_cells(entrant, opponents, seeds, opponents.len() as int)[k];
                #[trigger] surface_cells(entrant, opponents, seeds, opponents.len() as int)[j] == (
                    cell.0,
                    cell.1,
                    cell.2,
                    cell.3,
                    other_seat(cell.4),
                    cell.5,
                )
            },
{
    let n = opponents.len() as int;
    let position = lemma_cell_position(entrant, opponents, seeds, n, k);
    let (o, s, d) = position;
    lemma_cell_at(entrant, opponents, seeds, n, o, 1 - s, d);
    let j = o * 2 * seeds + (1 - s) * seeds + d;
    let cells = surface_cells(entrant, opponents, seeds, n);
    assert(cells[j] == (cells[k].0, cells[k].1, cells[k].2, cells[k].3, other_seat(cells[k].4), cells[k].5));
}

} // verus!
