//! One game's measurement, reduced to what a campaign needs, and the exact
//! counts a matchup summary is built from.

use vstd::prelude::*;
use crate::deck_match::{copy_termination, is_terminal, DeckMatchResult, DeckMatchTermination, EngineFinding};
use crate::planner::board::PlayerId;

verus! {

/// One game's measurement.
#[derive(Clone, Debug, PartialEq, Eq)]
pub struct GameRecord {
    pub shuffle_seed: u64,
    /// The deck seated as player zero, i.e. on the play.
    pub on_the_play: String,
    pub on_the_draw: String,
    /// Which seat the matchup's "deck A" occupied: 0 on the play, 1 on the
    /// draw. Recorded at generation time rather than inferred from deck ids,
    /// because in a mirror both ids are the same string.
    pub deck_a_seat: usize,
    /// The winning seat, or `None` for a draw or a non-rules stop.
    pub winner_seat: Option<usize>,
    /// The winning deck id. `None` for a draw or a non-rules stop.
    pub winner: Option<String>,
    /// True when the game ended by the rules rather than by a bound.
    pub decisive: bool,
    pub termination: DeckMatchTermination,
    pub turns: u32,
    /// Final life, indexed the same way as `[on_the_play, on_the_draw]`.
    pub life: [i64; 2],
    pub accepted_policy_moves: u32,
    /// Proposals the engine refused.
    pub rejected_policy_moves: u32,
    pub engine_findings: Vec<EngineFinding>,
    pub digest: String,
}

/// Whether deck A won: `None` when no seat won.
pub open spec fn deck_a_won_view(record: GameRecord) -> Option<bool> {
    match record.winner_seat {
        Some(seat) => Some(seat == record.deck_a_seat),
        None => None,
    }
}

impl GameRecord {
    /// Whether deck A won this game. `None` when the game was not decisive.
    pub fn deck_a_won(&self) -> (won: Option<bool>)
        ensures
            won == deck_a_won_view(*self),
    {
        match self.winner_seat {
            Some(seat) => Some(seat == self.deck_a_seat),
            None => None,
        }
    }

    /// Whether deck A was on the play.
    pub fn deck_a_on_the_play(&self) -> (on_the_play: bool)
        ensures
            on_the_play == (self.deck_a_seat == 0),
    {
        self.deck_a_seat == 0
    }

    /// Reduces a match result to a game record, with deck A in seat
    /// `deck_a_seat`.
    pub fn from_result(result: &DeckMatchResult, deck_a_seat: usize) -> (record: GameRecord)
        requires
            match result.winner {
                Some(player) => player.0 < 2,
                None => true,
            },
        ensures
            record.shuffle_seed == result.config.shuffle_seed,
            record.on_the_play@ == result.deck_ids[0]@,
            record.on_the_draw@ == result.deck_ids[1]@,
            record.deck_a_seat == deck_a_seat,
            record.winner_seat == match result.winner {
                Some(player) => Some(player.0),
                None => None::<usize>,
            },
            match result.winner {
                Some(player) => record.winner is Some && record.winner->Some_0@ == result.deck_ids[player.0 as int]@,
                None => record.winner is None,
            },
            record.decisive == is_terminal(result.termination),
            record.termination == result.termination,
            record.turns == result.turns,
            record.life == result.life,
            record.accepted_policy_moves == result.accepted_policy_moves,
            record.rejected_policy_moves == if result.attempted_policy_moves > result.accepted_policy_moves {
                result.attempted_policy_moves - result.accepted_policy_moves
            } else {
                0
            },
            record.engine_findings@ == result.engine_findings@,
            record.digest@ == result.digest@,
    {
        let decisive = match result.termination {
            DeckMatchTermination::Winner(_) => true,
            DeckMatchTermination::Draw => true,
            _ => false,
        };
        let winner_seat = match result.winner {
            Some(PlayerId(seat)) => Some(seat),
            None => None,
        };
        let winner = match winner_seat {
            Some(seat) => Some(result.deck_ids[seat].clone()),
            None => None,
        };
        GameRecord {
            shuffle_seed: result.config.shuffle_seed,
            on_the_play: result.deck_ids[0].clone(),
            on_the_draw: result.deck_ids[1].clone(),
            deck_a_seat,
            winner_seat,
            winner,
            decisive,
            termination: copy_termination(&result.termination),
            turns: result.turns,
            life: result.life,
            accepted_policy_moves: result.accepted_policy_moves,
            rejected_policy_moves: result.attempted_policy_moves.saturating_sub(result.accepted_policy_moves),
            engine_findings: copy_findings(&result.engine_findings),
            digest: result.digest.clone(),
        }
    }
}

/// A copy of a finding, field for field.
pub fn copy_finding(finding: &EngineFinding) -> (copy: EngineFinding)
    ensures
        copy == *finding,
{
    EngineFinding {
        kind: finding.kind,
        shuffle_seed: finding.shuffle_seed,
        player: finding.player,
        code: finding.code.clone(),
        detail: finding.detail.clone(),
    }
}

/// A copy of a list of findings, in order.
pub fn copy_findings(findings: &Vec<EngineFinding>) -> (copy: Vec<EngineFinding>)
    ensures
        copy@ == findings@,
{
    let mut copy: Vec<EngineFinding> = Vec::new();
    let mut i: usize = 0;
    while i < findings.len()
        invariant
            i <= findings@.len(),
            copy@ == findings@.take(i as int),
        decreases findings@.len() - i,
    {
        copy.push(copy_finding(&findings[i]));
        assert(copy@ =~= findings@.take(i + 1));
        i = i + 1;
    }
    assert(findings@.take(findings@.len() as int) =~= findings@);
    copy
}

/// The exact counts a matchup summary is built from, over deck A's games.
#[derive(Clone, Debug, PartialEq, Eq)]
pub struct MatchupTally {
    pub games: u32,
    /// Games that ended by a move or turn bound rather than by the rules.
    pub truncated: u32,
    /// Rules-valid games with no winner.
    pub draws: u32,
    /// Total refused proposals across the sample.
    pub rejected_moves: u32,
    pub wins: u32,
    pub decided: u32,
    pub play_wins: u32,
    pub play_decided: u32,
    pub draw_wins: u32,
    pub draw_decided: u32,
    pub turns_total: u64,
    pub moves_total: u64,
    /// Life left to the winners of decided games, summed.
    pub winner_life: i64,
    /// Life left to the losers of decided games, summed.
    pub loser_life: i64,
    pub engine_findings: Vec<EngineFinding>,
}

/// The mathematical value of a tally.
pub struct TallyView {
    pub games: int,
    pub truncated: int,
    pub draws: int,
    pub rejected_moves: int,
    pub wins: int,
    pub decided: int,
    pub play_wins: int,
    pub play_decided: int,
    pub draw_wins: int,
    pub draw_decided: int,
    pub turns_total: int,
    pub moves_total: int,
    pub winner_life: int,
    pub loser_life: int,
    pub engine_findings: Seq<EngineFinding>,
}

impl View for MatchupTally {
    type V = TallyView;

    open spec fn view(&self) -> TallyView {
        TallyView {
            games: self.games as int,
            truncated: self.truncated as int,
            draws: self.draws as int,
            rejected_moves: self.rejected_moves as int,
            wins: self.wins as int,
            decided: self.decided as int,
            play_wins: self.play_wins as int,
            play_decided: self.play_decided as int,
            draw_wins: self.draw_wins as int,
            draw_decided: self.draw_decided as int,
            turns_total: self.turns_total as int,
            moves_total: self.moves_total as int,
            winner_life: self.winner_life as int,
            loser_life: self.loser_life as int,
            engine_findings: self.engine_findings@,
        }
    }
}

/// The tally of no games.
pub open spec fn empty_tally() -> TallyView {
    TallyView {
        games: 0,
        truncated: 0,
        draws: 0,
        rejected_moves: 0,
        wins: 0,
        decided: 0,
        play_wins: 0,
        play_decided: 0,
        draw_wins: 0,
        draw_decided: 0,
        turns_total: 0,
        moves_total: 0,
        winner_life: 0,
        loser_life: 0,
        engine_findings: Seq::empty(),
    }
}

/// The tally after one more game: every game counts its turns, moves,
/// rejections and findings; a game stopped by a bound is truncated; a
/// rules-valid game with no winner is a draw; a decided game counts for
/// deck A's seat, and its winner's and loser's life are summed by seat.
pub open spec fn tally_step(tally: TallyView, game: GameRecord) -> TallyView {
    let counted = TallyView {
        games: tally.games + 1,
        turns_total: tally.turns_total + game.turns,
        moves_total: tally.moves_total + game.accepted_policy_moves,
        rejected_moves: tally.rejected_moves + game.rejected_policy_moves,
        engine_findings: tally.engine_findings + game.engine_findings@,
        ..tally
    };
    if !game.decisive {
        TallyView { truncated: counted.truncated + 1, ..counted }
    } else {
        match deck_a_won_view(game) {
            None => TallyView { draws: counted.draws + 1, ..counted },
            Some(won) => {
                let win: int = if won {
                    1
                } else {
                    0
                };
                let seated = if game.deck_a_seat == 0 {
                    TallyView {
                        play_decided: counted.play_decided + 1,
                        play_wins: counted.play_wins + win,
                        ..counted
                    }
                } else {
                    TallyView {
                        draw_decided: counted.draw_decided + 1,
                        draw_wins: counted.draw_wins + win,
                        ..counted
                    }
                };
                let seat = game.winner_seat->Some_0;
                TallyView {
                    decided: seated.decided + 1,
                    wins: seated.wins + win,
                    winner_life: seated.winner_life + game.life[seat as int],
                    loser_life: seated.loser_life + game.life[1 - seat],
                    ..seated
                }
            },
        }
    }
}

/// The tally of the first `n` games.
pub open spec fn tally_view(games: Seq<GameRecord>, n: int) -> TallyView
    decreases n,
{
    if n <= 0 {
        empty_tally()
    } else {
        tally_step(tally_view(games, n - 1), games[n - 1])
    }
}

/// Whether every running count of the tally fits its machine word.
pub open spec fn tally_fits(tally: TallyView) -> bool {
    &&& tally.games <= u32::MAX
    &&& tally.truncated <= u32::MAX
    &&& tally.draws <= u32::MAX
    &&& tally.rejected_moves <= u32::MAX
    &&& tally.wins <= u32::MAX
    &&& tally.decided <= u32::MAX
    &&& tally.play_wins <= u32::MAX
    &&& tally.play_decided <= u32::MAX
    &&& tally.draw_wins <= u32::MAX
    &&& tally.draw_decided <= u32::MAX
    &&& tally.turns_total <= u64::MAX
    &&& tally.moves_total <= u64::MAX
    &&& i64::MIN <= tally.winner_life <= i64::MAX
    &&& i64::MIN <= tally.loser_life <= i64::MAX
}

/// Whether a game can be tallied: a decided game names seat 0 or 1.
pub open spec fn well_seated(game: GameRecord) -> bool {
    game.decisive && game.winner_seat is Some ==> game.winner_seat->Some_0 < 2
}

/// Counts a matchup's games for deck A.
pub fn tally_games(games: &Vec<GameRecord>) -> (tally: MatchupTally)
    requires
        forall|i: int| 0 <= i < games@.len() ==> well_seated(#[trigger] games@[i]),
        forall|n: int| 0 <= n <= games@.len() ==> tally_fits(#[trigger] tally_view(games@, n)),
    ensures
        tally@ == tally_view(games@, games@.len() as int),
{
    let mut tally = MatchupTally {
        games: 0,
        truncated: 0,
        draws: 0,
        rejected_moves: 0,
        wins: 0,
        decided: 0,
        play_wins: 0,
        play_decided: 0,
        draw_wins: 0,
        draw_decided: 0,
        turns_total: 0,
        moves_total: 0,
        winner_life: 0,
        loser_life: 0,
        engine_findings: Vec::new(),
    };
    assert(tally@ == tally_view(games@, 0));
    let mut i: usize = 0;
    while i < games.len()
        invariant
            i <= games@.len(),
            tally@ == tally_view(games@, i as int),
            forall|k: int| 0 <= k < games@.len() ==> well_seated(#[trigger] games@[k]),
            forall|n: int| 0 <= n <= games@.len() ==> tally_fits(#[trigger] tally_view(games@, n)),
        decreases games@.len() - i,
    {
        let game = &games[i];
        let ghost next = tally_view(games@, i + 1);
        assert(tally_fits(next));
        assert(well_seated(games@[i as int]));
        tally.games = tally.games + 1;
        tally.turns_total = tally.turns_total + game.turns as u64;
        tally.moves_total = tally.moves_total + game.accepted_policy_moves as u64;
        tally.rejected_moves = tally.rejected_moves + game.rejected_policy_moves;
        let mut found = copy_findings(&game.engine_findings);
        tally.engine_findings.append(&mut found);
        if !game.decisive {
            tally.truncated = tally.truncated + 1;
        } else {
            match game.deck_a_won() {
                None => {
                    tally.draws = tally.draws + 1;
                },
                Some(won) => {
                    let win: u32 = if won {
                        1
                    } else {
                        0
                    };
                    if game.deck_a_on_the_play() {
                        tally.play_decided = tally.play_decided + 1;
                        tally.play_wins = tally.play_wins + win;
                    } else {
                        tally.draw_decided = tally.draw_decided + 1;
                        tally.draw_wins = tally.draw_wins + win;
                    }
                    tally.decided = tally.decided + 1;
                    tally.wins = tally.wins + win;
                    if let Some(seat) = game.winner_seat {
                        tally.winner_life = tally.winner_life + game.life[seat];
                        tally.loser_life = tally.loser_life + game.life[1 - seat];
                    }
                },
            }
        }
        assert(tally@ == next) by {
            assert(tally.engine_findings@ =~= next.engine_findings);
        }
        i = i + 1;
    }
    tally
}


/// A tally accounts for every game exactly once: each game is decided, a
/// draw, or truncated; each decided game was played from one seat; and no
/// seat wins more games than it decided.
pub proof fn tally_accounts_for_every_game(games: Seq<GameRecord>, n: int)
    requires
        0 <= n <= games.len(),
    ensures
        tally_view(games, n).games == n,
        tally_view(games, n).decided + tally_view(games, n).draws + tally_view(games, n).truncated == n,
        tally_view(games, n).play_decided + tally_view(games, n).draw_decided == tally_view(games, n).decided,
        tally_view(games, n).play_wins + tally_view(games, n).draw_wins == tally_view(games, n).wins,
        0 <= tally_view(games, n).play_wins <= tally_view(games, n).play_decided,
        0 <= tally_view(games, n).draw_wins <= tally_view(games, n).draw_decided,
    decreases n,
{
    if n > 0 {
        tally_accounts_for_every_game(games, n - 1);
    }
}

/// A kind of game a tally counts.
pub enum GameKind {
    /// Stopped by a move or turn bound.
    Truncated,
    /// Ended by the rules with no winner.
    Draw,
    /// Ended by the rules with a winner, deck A in `seat`, or either seat.
    Decided { seat: Option<usize> },
    /// Won by deck A from `seat`, or from either seat.
    Won { seat: Option<usize> },
}

/// Whether `game` is of kind `kind`.
pub open spec fn is_kind(game: GameRecord, kind: GameKind) -> bool {
    let decided = game.decisive && game.winner_seat is Some;
    match kind {
        GameKind::Truncated => !game.decisive,
        GameKind::Draw => game.decisive && game.winner_seat is None,
        GameKind::Decided { seat } => decided && (seat is None || seat == Some(game.deck_a_seat)),
        GameKind::Won { seat } => decided && game.winner_seat == Some(game.deck_a_seat) && (seat is None || seat
            == Some(game.deck_a_seat)),
    }
}

/// How many of the first `n` games are of kind `kind`.
pub open spec fn games_of_kind(games: Seq<GameRecord>, n: int, kind: GameKind) -> int
    decreases n,
{
    if n <= 0 {
        0
    } else {
        games_of_kind(games, n - 1, kind) + if is_kind(games[n - 1], kind) {
            1int
        } else {
            0int
        }
    }
}

/// Each count of a tally is the number of games of its kind: deck A wins a
/// game exactly when the winning seat is deck A's, and the play and draw
/// counts split the decided games and the wins by the seat deck A held.
pub proof fn tally_counts_games_by_kind(games: Seq<GameRecord>, n: int)
    requires
        0 <= n <= games.len(),
        forall|i: int| 0 <= i < games.len() ==> (#[trigger] games[i]).deck_a_seat < 2,
    ensures
        tally_view(games, n).truncated == games_of_kind(games, n, GameKind::Truncated),
        tally_view(games, n).draws == games_of_kind(games, n, GameKind::Draw),
        tally_view(games, n).decided == games_of_kind(games, n, GameKind::Decided { seat: None }),
        tally_view(games, n).wins == games_of_kind(games, n, GameKind::Won { seat: None }),
        tally_view(games, n).play_decided == games_of_kind(games, n, GameKind::Decided { seat: Some(0) }),
        tally_view(games, n).play_wins == games_of_kind(games, n, GameKind::Won { seat: Some(0) }),
        tally_view(games, n).draw_decided == games_of_kind(games, n, GameKind::Decided { seat: Some(1) }),
        tally_view(games, n).draw_wins == games_of_kind(games, n, GameKind::Won { seat: Some(1) }),
    decreases n,
{
    if n > 0 {
        tally_counts_games_by_kind(games, n - 1);
        assert(games[n - 1].deck_a_seat < 2);
    }
}

/// A per-game quantity a tally sums.
pub enum GameMeasure {
    Turns,
    AcceptedMoves,
    RejectedMoves,
    /// Life left to the winning seat, counted for decided games only.
    WinnerLife,
    /// Life left to the losing seat, counted for decided games only.
    LoserLife,
}

/// The quantity `measure` of one game.
pub open spec fn measure_of(game: GameRecord, measure: GameMeasure) -> int {
    let decided = game.decisive && game.winner_seat is Some;
    match measure {
        GameMeasure::Turns => game.turns as int,
        GameMeasure::AcceptedMoves => game.accepted_policy_moves as int,
        GameMeasure::RejectedMoves => game.rejected_policy_moves as int,
        GameMeasure::WinnerLife => if decided {
            game.life[game.winner_seat->Some_0 as int] as int
        } else {
            0
        },
        GameMeasure::LoserLife => if decided {
            game.life[1 - game.winner_seat->Some_0] as int
        } else {
            0
        },
    }
}

/// The sum of `measure` over the first `n` games.
pub open spec fn games_total(games: Seq<GameRecord>, n: int, measure: GameMeasure) -> int
    decreases n,
{
    if n <= 0 {
        0
    } else {
        games_total(games, n - 1, measure) + measure_of(games[n - 1], measure)
    }
}

/// A tally's sums run over every game: turns, accepted and refused moves
/// over all of them, and the winner's and loser's life over the decided ones.
pub proof fn tally_sums_every_game(games: Seq<GameRecord>, n: int)
    requires
        0 <= n <= games.len(),
    ensures
        tally_view(games, n).turns_total == games_total(games, n, GameMeasure::Turns),
        tally_view(games, n).moves_total == games_total(games, n, GameMeasure::AcceptedMoves),
        tally_view(games, n).rejected_moves == games_total(games, n, GameMeasure::RejectedMoves),
        tally_view(games, n).winner_life == games_total(games, n, GameMeasure::WinnerLife),
        tally_view(games, n).loser_life == games_total(games, n, GameMeasure::LoserLife),
    decreases n,
{
    if n > 0 {
        tally_sums_every_game(games, n - 1);
    }
}

} // verus!
