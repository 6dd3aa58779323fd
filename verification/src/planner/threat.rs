//! Clock arithmetic shared by combat and targeting: how fast each side is
//! killing the other if nothing changes.

use vstd::prelude::*;
use crate::planner::board::{Board, Keyword, Permanent, primary_of};

verus! {

/// Whether a creature's damage is hard for a typical board to block.
pub open spec fn evasive(permanent: Permanent) -> bool {
    exists|k: int|
        0 <= k < permanent.keywords@.len() && evasion_keyword(#[trigger] permanent.keywords@[k])
}

/// The keywords that make a creature's damage hard to stop.
pub open spec fn evasion_keyword(keyword: Keyword) -> bool {
    match keyword {
        Keyword::Flying
        | Keyword::Fear
        | Keyword::Trample
        | Keyword::BlackEvasion
        | Keyword::Unblockable
        | Keyword::Mountainwalk
        | Keyword::Landwalk(_) => true,
        _ => false,
    }
}

/// Whether a creature's damage is hard for a typical board to block.
pub fn is_evasive(permanent: &Permanent) -> (hard: bool)
    ensures
        hard == evasive(*permanent),
{
    let mut i: usize = 0;
    while i < permanent.keywords.len()
        invariant
            i <= permanent.keywords@.len(),
            forall|k: int| 0 <= k < i ==> !evasion_keyword(#[trigger] permanent.keywords@[k]),
        decreases permanent.keywords@.len() - i,
    {
        let hit = match permanent.keywords[i] {
            Keyword::Flying
            | Keyword::Fear
            | Keyword::Trample
            | Keyword::BlackEvasion
            | Keyword::Unblockable
            | Keyword::Mountainwalk
            | Keyword::Landwalk(_) => true,
            _ => false,
        };
        if hit {
            assert(evasion_keyword(permanent.keywords@[i as int]));
            return true;
        }
        i = i + 1;
    }
    false
}

/// Whether a permanent contributes to its controller's clock: a creature
/// that is not a wall.
pub open spec fn clock_creature(permanent: Permanent) -> bool {
    permanent.is_creature && !permanent.holds(Keyword::Defender)
}

/// The damage one creature adds to its controller's clock.
pub open spec fn clock_power(permanent: Permanent) -> int {
    if clock_creature(permanent) && permanent.power > 0 {
        permanent.power as int
    } else {
        0
    }
}

/// Total per-turn damage of the first `n` permanents, ignoring blocks.
pub open spec fn clock_of(permanents: Seq<Permanent>, n: int) -> int
    decreases n,
{
    if n <= 0 {
        0
    } else {
        clock_of(permanents, n - 1) + clock_power(permanents[n - 1])
    }
}

/// Total per-turn damage of a list of permanents.
fn clock_sum(permanents: &Vec<Permanent>) -> (clock: i32)
    requires
        permanents@.len() <= 65535,
    ensures
        clock == clock_of(permanents@, permanents@.len() as int),
        clock >= 0,
{
    let mut sum: i32 = 0;
    let mut i: usize = 0;
    while i < permanents.len()
        invariant
            i <= permanents@.len() <= 65535,
            sum == clock_of(permanents@, i as int),
            0 <= sum <= 32767 * i,
        decreases permanents@.len() - i,
    {
        let permanent = &permanents[i];
        if permanent.is_creature && !permanent.has(Keyword::Defender) && permanent.power > 0 {
            sum = sum + permanent.power as i32;
        }
        i = i + 1;
    }
    sum
}

/// Total damage per turn I am currently applying, ignoring blocks.
pub fn my_clock(board: &Board) -> (clock: i32)
    requires
        board.mine@.len() <= 65535,
    ensures
        clock == clock_of(board.mine@, board.mine@.len() as int),
        clock >= 0,
{
    clock_sum(&board.mine)
}

/// Total damage per turn the opponents could apply back.
pub fn their_clock(board: &Board) -> (clock: i32)
    requires
        board.theirs@.len() <= 65535,
    ensures
        clock == clock_of(board.theirs@, board.theirs@.len() as int),
        clock >= 0,
{
    clock_sum(&board.theirs)
}

/// `ceil(life / clock)` for a positive clock, with negative life read as zero.
pub open spec fn turns_needed(clock: int, life: int) -> int {
    let remaining = if life < 0 {
        0
    } else {
        life
    };
    remaining / clock + if remaining % clock != 0 {
        1int
    } else {
        0int
    }
}

/// Turns until a clock of `clock` damage kills a player at `life`, saturated
/// at `u32::MAX`; `None` when the clock deals no damage.
pub open spec fn turns_to_kill_spec(clock: int, life: int) -> Option<u32> {
    if clock <= 0 {
        None
    } else if turns_needed(clock, life) > u32::MAX {
        Some(u32::MAX)
    } else {
        Some(turns_needed(clock, life) as u32)
    }
}

/// Turns until my board kills the given opponent, if nothing changes.
///
/// `None` when I deal no damage. A large number is not the same as never.
pub fn turns_to_kill(clock: i32, life: i64) -> (turns: Option<u32>)
    ensures
        turns == turns_to_kill_spec(clock as int, life as int),
{
    if clock <= 0 {
        return None;
    }
    let remaining: i64 = if life < 0 {
        0
    } else {
        life
    };
    let clock = clock as i64;
    let whole = remaining / clock;
    let extra: i64 = if remaining % clock != 0 {
        1
    } else {
        0
    };
    assert(whole <= remaining) by (nonlinear_arith)
        requires
            whole == remaining / clock,
            remaining >= 0,
            clock >= 1,
    ;
    assert(extra == 1 ==> whole < remaining) by (nonlinear_arith)
        requires
            whole == remaining / clock,
            remaining >= 0,
            clock >= 1,
            extra == 1 ==> remaining % clock != 0,
    ;
    let needed = whole + extra;
    if needed > u32::MAX as i64 {
        Some(u32::MAX)
    } else {
        Some(needed as u32)
    }
}

/// Whether the race goes my way, given both kill times.
pub open spec fn race_won(mine: Option<u32>, theirs: Option<u32>, on_the_play: bool) -> bool {
    match (mine, theirs) {
        (None, _) => false,
        (Some(_), None) => true,
        (Some(mine), Some(theirs)) => if mine == theirs {
            on_the_play
        } else {
            mine < theirs
        },
    }
}

/// Whether I am winning the damage race against the primary opponent.
pub open spec fn winning_spec(board: Board, on_the_play: bool) -> bool {
    match primary_of(board.opponents@) {
        None => false,
        Some(opponent) => race_won(
            turns_to_kill_spec(clock_of(board.mine@, board.mine@.len() as int), opponent.life as int),
            turns_to_kill_spec(clock_of(board.theirs@, board.theirs@.len() as int), board.my_life as int),
            on_the_play,
        ),
    }
}

/// Whether I am winning the damage race against my fastest opponent.
///
/// Ties go to the player whose turn is next, which is why `on_the_play` is
/// an input rather than an assumption.
pub fn winning_the_race(board: &Board, on_the_play: bool) -> (winning: bool)
    requires
        board.mine@.len() <= 65535,
        board.theirs@.len() <= 65535,
    ensures
        winning == winning_spec(*board, on_the_play),
{
    let opponent = match board.primary_opponent() {
        None => return false,
        Some(opponent) => opponent,
    };
    let mine = turns_to_kill(my_clock(board), opponent.life);
    let theirs = turns_to_kill(their_clock(board), board.my_life);
    match (mine, theirs) {
        (None, _) => false,
        (Some(_), None) => true,
        (Some(mine), Some(theirs)) => if mine == theirs {
            on_the_play
        } else {
            mine < theirs
        },
    }
}

/// A kill time is enough turns and no more: after `turns` turns the clock
/// has dealt at least `life` damage, and one turn fewer would not have.
pub proof fn turns_to_kill_is_exact(clock: int, life: int)
    requires
        clock > 0,
        life > 0,
        turns_needed(clock, life) <= u32::MAX,
    ensures
        ({
            let turns = turns_to_kill_spec(clock, life).unwrap() as int;
            &&& turns * clock >= life
            &&& (turns - 1) * clock < life
        }),
{
    let turns = turns_to_kill_spec(clock, life).unwrap() as int;
    let q = life / clock;
    let r = life % clock;
    assert(life == q * clock + r && 0 <= r < clock) by (nonlinear_arith)
        requires
            clock > 0,
            q == life / clock,
            r == life % clock,
    ;
    if r == 0 {
        assert(turns == q);
        assert(turns * clock == life) by (nonlinear_arith)
            requires
                turns == q,
                life == q * clock + r,
                r == 0,
        ;
        assert((turns - 1) * clock < life) by (nonlinear_arith)
            requires
                turns * clock == life,
                clock > 0,
        ;
    } else {
        assert(turns == q + 1);
        assert(turns * clock >= life && (turns - 1) * clock < life) by (nonlinear_arith)
            requires
                turns == q + 1,
                life == q * clock + r,
                0 < r < clock,
        ;
    }
}

/// Who wins the damage race against the primary opponent: with no clock I
/// never win; a clock that kills while theirs never does wins; when both
/// kill, the sooner kill wins and a tie goes to the player on the play. With
/// no opponent there is no race to win.
pub proof fn race_goes_to_the_faster_clock(board: Board, on_the_play: bool)
    ensures
        primary_of(board.opponents@) is None ==> !winning_spec(board, on_the_play),
        primary_of(board.opponents@) is Some ==> ({
            let opponent = primary_of(board.opponents@)->Some_0;
            let my_clock = clock_of(board.mine@, board.mine@.len() as int);
            let their_clock = clock_of(board.theirs@, board.theirs@.len() as int);
            let mine = turns_to_kill_spec(my_clock, opponent.life as int);
            let theirs = turns_to_kill_spec(their_clock, board.my_life as int);
            &&& my_clock > 0 && their_clock <= 0 ==> winning_spec(board, on_the_play)
            &&& mine is Some && theirs is None ==> winning_spec(board, on_the_play)
            &&& my_clock <= 0 ==> !winning_spec(board, on_the_play)
            &&& mine is None ==> !winning_spec(board, on_the_play)
            &&& mine is Some && theirs is Some ==> {
                &&& mine->Some_0 < theirs->Some_0 ==> winning_spec(board, on_the_play)
                &&& mine->Some_0 > theirs->Some_0 ==> !winning_spec(board, on_the_play)
                &&& mine->Some_0 == theirs->Some_0 ==> (winning_spec(board, on_the_play) == on_the_play)
            }
        }),
{
}

} // verus!
