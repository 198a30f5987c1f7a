//! The state of a game and its moves: falling, shifting, rotating with wall
//! kicks, locking, the flash of full rows before they collapse, scoring with
//! T-spins, back-to-back chains and combos, lock delay, and hold.
//!
//! Time is a count of nanoseconds on a clock that the caller reads; every
//! move that may start or check the lock delay takes the current time.

use vstd::prelude::*;

use crate::bag::{is_full_bag, Bag};
use crate::piece::{cells_of, lemma_shape_offsets, placeable, placed, shape_spec, Active, Piece};
use crate::scores::{lemma_top_scores, top_scores, top_scores_spec};
use crate::rules::{
    blocked, clear_points, clear_spec, collides_spec, corner_filled, count_full_rows,
    count_full_rows_with, empty_row, full_count, grid, is_difficult, is_row_full, kept_rows,
    kicks_spec, lemma_kept_step, line_clear_points, offsets_of, on_board, place_spec, srs_kicks,
    t_spin_spec, Board, Spin, HEIGHT, WIDTH,
};

verus! {

/// How long a grounded piece may rest before it locks, in nanoseconds.
pub const LOCK_DELAY_NS: u64 = 500_000_000;

/// How often moves and rotations may restart the lock delay of one piece.
pub const MAX_LOCK_RESETS: u8 = 15;

/// Where a new piece's bounding box starts.
pub const SPAWN_ROW: i32 = 0;

/// Where a new piece's bounding box starts.
pub const SPAWN_COL: i32 = 3;

/// How long cleared rows flash before they collapse, in nanoseconds.
pub const CLEAR_ANIMATION_NS: u64 = 120_000_000;

/// Full rows waiting to collapse: when they started flashing, and the T-spin
/// the lock that filled them scored.
#[derive(Clone, Copy, PartialEq, Eq, Debug, Structural)]
pub struct Clearing {
    pub started: u64,
    pub spin: Spin,
}

/// A game in progress.
pub struct Game {
    pub board: Board,
    pub active: Active,
    pub bag: Bag,
    pub hold: Option<Piece>,
    pub hold_used: bool,
    /// When the lock delay of the active piece started, if it is grounded.
    pub lock_timer: Option<u64>,
    pub lock_resets: u8,
    pub score: u32,
    pub lines: u32,
    pub level: u32,
    pub best_score: u32,
    pub game_over: bool,
    pub paused: bool,
    pub score_saved: bool,
    /// The last successful move of the active piece was a rotation.
    pub last_rotated: bool,
    /// The last line clear was difficult and no easy clear came since.
    pub b2b: bool,
    /// How many locks in a row, up to the last, cleared lines.
    pub combo: u32,
    /// Full rows are flashing; no piece is in play until they collapse.
    pub clearing: Option<Clearing>,
}

/// The lock-delay timer and its reset count after a move, given whether the
/// piece now rests on something. A grounded piece starts the timer if it is
/// not running; a move or rotation (`is_action`) restarts a running timer,
/// at most `MAX_LOCK_RESETS` times per piece. A piece in the air stops it.
pub open spec fn timer_after(
    timer: Option<u64>,
    resets: u8,
    grounded: bool,
    is_action: bool,
    now: u64,
) -> (Option<u64>, u8) {
    if grounded {
        match timer {
            None => (Some(now), resets),
            Some(_) => if is_action && resets < MAX_LOCK_RESETS {
                (Some(now), (resets + 1) as u8)
            } else {
                (timer, resets)
            },
        }
    } else {
        (None, resets)
    }
}

/// Milliseconds between gravity steps at `level`.
pub open spec fn gravity_ms_spec(level: int) -> int {
    if 800 - 60 * (level - 1) > 80 {
        800 - 60 * (level - 1)
    } else {
        80
    }
}

/// The piece a new turn starts with.
pub open spec fn spawned(p: Piece) -> Active {
    Active { piece: p, rot: 0, row: SPAWN_ROW, col: SPAWN_COL }
}

/// Every piece fits at the spawn position when rows 0 to 3, columns 3 to 6
/// of the playfield are empty.
proof fn lemma_spawn_fits_empty(g: Seq<Seq<Option<Piece>>>, p: Piece)
    requires
        forall|r: int, c: int| 0 <= r < 4 && 3 <= c < 7 ==> #[trigger] g[r][c] is None,
    ensures
        !collides_spec(g, placed(p, 0, SPAWN_ROW as int, SPAWN_COL as int)),
{
    lemma_shape_offsets(p, 0);
    let cells = placed(p, 0, SPAWN_ROW as int, SPAWN_COL as int);
    assert forall|i: int| 0 <= i < cells.len() implies !#[trigger] blocked(g, cells[i].0, cells[i].1) by {
        assert(0 <= shape_spec(p, 0)[i].0 <= 3);
    }
}

/// A placement that does not collide lies with its box at most at the last
/// row, and at most three columns beyond either wall.
pub proof fn lemma_fit_bounds(g: Seq<Seq<Option<Piece>>>, p: Piece, r: int, row: int, col: int)
    requires
        !collides_spec(g, placed(p, r, row, col)),
    ensures
        row < HEIGHT,
        -3 <= col < WIDTH,
{
    lemma_shape_offsets(p, r);
    let cells = placed(p, r, row, col);
    assert(!blocked(g, cells[0].0, cells[0].1));
}

impl Game {
    /// The playfield as a grid.
    pub open spec fn grid(&self) -> Seq<Seq<Option<Piece>>> {
        grid(self.board)
    }

    /// The active piece fits with rotation `rot` and box at `(row, col)`.
    pub open spec fn fits(&self, rot: int, row: int, col: int) -> bool {
        !collides_spec(self.grid(), placed(self.active.piece, rot % 4, row, col))
    }

    /// The active piece cannot fall one row.
    pub open spec fn grounded(&self) -> bool {
        !self.fits(self.active.rot as int, self.active.row + 1, self.active.col as int)
    }

    /// The active piece could stand as `a` on this playfield.
    pub open spec fn fits_active(&self, a: Active) -> bool {
        !collides_spec(self.grid(), a.cells_spec())
    }

    /// The active piece shifted by `dr` rows and `dc` columns.
    pub open spec fn shifted(&self, dr: int, dc: int) -> Active {
        Active { row: (self.active.row + dr) as i32, col: (self.active.col + dc) as i32, ..self.active }
    }

    /// The state after the active piece moved to `a`: `rotated` tells whether
    /// the move was a rotation, and the lock delay follows `timer_after`.
    pub open spec fn moved_to(&self, a: Active, is_action: bool, rotated: bool, now: u64) -> Game {
        let grounded = collides_spec(self.grid(), placed(a.piece, a.rot as int % 4, a.row + 1, a.col as int));
        let t = timer_after(self.lock_timer, self.lock_resets, grounded, is_action, now);
        Game { active: a, last_rotated: rotated, lock_timer: t.0, lock_resets: t.1, ..*self }
    }

    /// The rotation state after turning by `dir` quarter turns clockwise.
    pub open spec fn turned(&self, dir: int) -> int {
        (self.active.rot + dir) % 4
    }

    /// Where the `i`-th wall-kick test puts the active piece when it turns by
    /// `dir`.
    pub open spec fn kick_target(&self, dir: int, i: int) -> Active {
        let new_rot = self.turned(dir);
        let k = kicks_spec(self.active.piece, self.active.rot as int, new_rot)[i];
        Active {
            rot: new_rot as usize,
            row: (self.active.row + k.0) as i32,
            col: (self.active.col + k.1) as i32,
            ..self.active
        }
    }

    /// The state after trying to shift the active piece by `(dr, dc)`: moved
    /// if it fits there (a sideways shift counting as an action for the lock
    /// delay), else unchanged.
    pub open spec fn shift_next(&self, dr: int, dc: int, now: u64) -> Game {
        if self.clearing is None && self.fits_active(self.shifted(dr, dc)) {
            self.moved_to(self.shifted(dr, dc), dr == 0, false, now)
        } else {
            *self
        }
    }

    /// The first wall-kick test from the `i`-th on that fits when turning by
    /// `dir`.
    pub open spec fn first_fit_kick(&self, dir: int, i: int) -> Option<int>
        decreases 5 - i,
    {
        if i >= 5 || i < 0 {
            None
        } else if self.fits_active(self.kick_target(dir, i)) {
            Some(i)
        } else {
            self.first_fit_kick(dir, i + 1)
        }
    }

    /// The state after trying to turn the active piece by `dir`: placed by
    /// the first wall-kick test that fits, or unchanged if none does.
    pub open spec fn rotate_next(&self, dir: int, now: u64) -> Game {
        if self.clearing is Some {
            *self
        } else {
            match self.first_fit_kick(dir, 0) {
                Some(i) => self.moved_to(self.kick_target(dir, i), true, true, now),
                None => *self,
            }
        }
    }

    /// The state after one step of gravity: fallen a row, or resting with its
    /// lock delay updated.
    pub open spec fn gravity_next(&self, now: u64) -> Game {
        if self.clearing is Some {
            *self
        } else if self.fits_active(self.shifted(1, 0)) {
            self.moved_to(self.shifted(1, 0), false, false, now)
        } else {
            Game {
                lock_timer: timer_after(
                    self.lock_timer,
                    self.lock_resets,
                    self.grounded(),
                    false,
                    now,
                ).0,
                lock_resets: timer_after(
                    self.lock_timer,
                    self.lock_resets,
                    self.grounded(),
                    false,
                    now,
                ).1,
                ..*self
            }
        }
    }

    /// The game's invariant.
    pub open spec fn wf(&self) -> bool {
        &&& self.wf_placed()
        &&& self.in_play() && self.lock_timer is Some ==> self.grounded()
    }

    /// The game's invariant, but for the lock delay agreeing with the piece.
    pub open spec fn wf_placed(&self) -> bool {
        &&& self.wf_fields()
        &&& self.in_play() ==> self.fits(
            self.active.rot as int,
            self.active.row as int,
            self.active.col as int,
        )
    }

    /// A piece is falling: the game is not over and no rows are flashing.
    pub open spec fn in_play(&self) -> bool {
        !self.game_over && self.clearing is None
    }

    /// The game's invariant, but for the active piece fitting the playfield.
    pub open spec fn wf_fields(&self) -> bool {
        &&& self.bag.wf()
        &&& self.active.rot < 4
        &&& self.active.row < HEIGHT
        &&& -3 <= self.active.col < WIDTH
        &&& self.lock_resets <= MAX_LOCK_RESETS
        &&& self.level == 1 + self.lines / 10
    }

    /// `g` is a game just begun with best score `best`: empty playfield, the
    /// first piece of a fresh bag at the spawn position, counters at zero,
    /// level one.
    pub open spec fn is_new_game(g: Game, best: u32) -> bool {
        &&& forall|r: int, c: int| on_board(r, c) ==> #[trigger] g.grid()[r][c] is None
        &&& g.bag.dealt() == seq![g.active.piece]
        &&& is_full_bag(seq![g.active.piece] + g.bag@)
        &&& g.active == spawned(g.active.piece)
        &&& g.hold is None
        &&& !g.hold_used
        &&& g.lock_timer is None
        &&& g.lock_resets == 0
        &&& g.score == 0
        &&& g.lines == 0
        &&& g.level == 1
        &&& g.best_score == best
        &&& !g.game_over
        &&& !g.paused
        &&& !g.score_saved
        &&& !g.last_rotated
        &&& !g.b2b
        &&& g.combo == 0
        &&& g.clearing is None
    }

    /// A new game: empty playfield, first piece dealt from a fresh bag.
    pub fn new(best_score: u32) -> (res: Game)
        ensures
            res.wf(),
            Game::is_new_game(res, best_score),
    {
        let mut bag = Bag::new();
        let ghost first_bag = bag@;
        let piece = bag.next();
        assert(seq![piece] + bag@ =~= first_bag);
        let res = Game {
            board: [[None; WIDTH]; HEIGHT],
            active: Active { piece, rot: 0, row: SPAWN_ROW, col: SPAWN_COL },
            bag,
            hold: None,
            hold_used: false,
            lock_timer: None,
            lock_resets: 0,
            score: 0,
            lines: 0,
            level: 1,
            best_score,
            game_over: false,
            paused: false,
            score_saved: false,
            last_rotated: false,
            b2b: false,
            combo: 0,
            clearing: None,
        };
        proof {
            assert(res.bag.dealt() =~= seq![piece]);
            assert forall|r: int, c: int| on_board(r, c) implies #[trigger] res.grid()[r][c] is None by {
            }
            lemma_spawn_fits_empty(res.grid(), piece);
        }
        res
    }

    /// Some cell of `cells` lies beside or below the playfield or on a filled
    /// cell.
    pub fn collides(&self, cells: &[(i32, i32); 4]) -> (res: bool)
        ensures
            res == collides_spec(self.grid(), cells_of(*cells)),
    {
        let ghost cs = cells_of(*cells);
        let mut i: usize = 0;
        while i < 4
            invariant
                0 <= i <= 4,
                cs == cells_of(*cells),
                forall|j: int| 0 <= j < i ==> !#[trigger] blocked(self.grid(), cs[j].0, cs[j].1),
            decreases 4 - i,
        {
            let (r, c) = cells[i];
            if c < 0 || c >= WIDTH as i32 || r >= HEIGHT as i32 {
                assert(blocked(self.grid(), cs[i as int].0, cs[i as int].1));
                return true;
            }
            if r >= 0 && self.board[r as usize][c as usize].is_some() {
                assert(blocked(self.grid(), cs[i as int].0, cs[i as int].1));
                return true;
            }
            i = i + 1;
        }
        false
    }

    /// The active piece cannot fall one row.
    pub fn is_grounded(&self) -> (res: bool)
        requires
            self.wf_fields(),
        ensures
            res == self.grounded(),
    {
        let cells = self.active.cells_with(self.active.rot, self.active.row + 1, self.active.col);
        self.collides(&cells)
    }

    /// Updates the lock delay after a move, a rotation, a spawn or a failed
    /// fall; `is_action` marks a move or rotation, which may restart it.
    pub fn after_move(&mut self, is_action: bool, now: u64)
        requires
            old(self).wf_placed(),
        ensures
            *final(self) == (Game {
                lock_timer: timer_after(
                    old(self).lock_timer,
                    old(self).lock_resets,
                    old(self).grounded(),
                    is_action,
                    now,
                ).0,
                lock_resets: timer_after(
                    old(self).lock_timer,
                    old(self).lock_resets,
                    old(self).grounded(),
                    is_action,
                    now,
                ).1,
                ..*old(self)
            }),
            final(self).wf(),
    {
        if self.is_grounded() {
            match self.lock_timer {
                None => {
                    self.lock_timer = Some(now);
                },
                Some(_) => {
                    if is_action && self.lock_resets < MAX_LOCK_RESETS {
                        self.lock_timer = Some(now);
                        self.lock_resets = self.lock_resets + 1;
                    }
                },
            }
        } else {
            self.lock_timer = None;
        }
    }

    /// The counters leave room for scoring `n` cleared rows with `spin`.
    pub open spec fn score_room(&self, n: int, spin: Spin) -> bool {
        &&& self.score + clear_points(spin, n, self.level as int, self.b2b, self.combo as int)
            <= u32::MAX
        &&& self.lines + n <= u32::MAX
        &&& n > 0 ==> self.combo < u32::MAX
    }

    /// The counters leave room for scoring the full rows of the playfield
    /// with `spin`.
    pub open spec fn clear_headroom(&self, spin: Spin) -> bool {
        self.score_room(full_count(self.grid()) as int, spin)
    }

    /// Removes the full rows and lets the rows above fall, keeping their
    /// order; returns how many rows went. Nothing else changes.
    pub fn collapse_rows(&mut self) -> (cleared: u32)
        requires
            old(self).wf_fields(),
        ensures
            final(self).wf_fields(),
            final(self).grid() == clear_spec(old(self).grid()),
            cleared == full_count(old(self).grid()),
            cleared <= HEIGHT,
            *final(self) == (Game { board: final(self).board, ..*old(self) }),
    {
        let ghost g = self.grid();
        let mut cleared: u32 = 0;
        let mut new_board: Board = [[None; WIDTH]; HEIGHT];
        let mut new_row: i32 = HEIGHT as i32 - 1;
        let ghost mut kept: Seq<Seq<Option<Piece>>> = Seq::empty();
        let mut r: usize = HEIGHT;
        proof {
            assert(kept =~= kept_rows(g.subrange(HEIGHT as int, HEIGHT as int)));
        }
        while r > 0
            invariant
                0 <= r <= HEIGHT,
                g == self.grid(),
                *self == *old(self),
                kept == kept_rows(g.subrange(r as int, HEIGHT as int)),
                kept.len() <= HEIGHT - r,
                new_row == HEIGHT - 1 - kept.len(),
                cleared == (HEIGHT - r) - kept.len(),
                forall|i: int| 0 <= i < kept.len() ==> #[trigger] new_board@[new_row + 1 + i]@ == kept[i],
                forall|i: int, c: int|
                    0 <= i <= new_row && 0 <= c < WIDTH ==> #[trigger] new_board@[i]@[c] is None,
            decreases r,
        {
            r = r - 1;
            proof {
                lemma_kept_step(g, r as int);
            }
            let full = is_row_full(&self.board[r]);
            if full {
                cleared = cleared + 1;
            } else if new_row >= 0 {
                let ghost prev = new_board;
                new_board[new_row as usize] = self.board[r];
                proof {
                    let k2 = seq![g[r as int]] + kept;
                    assert forall|i: int| 0 <= i < k2.len() implies #[trigger] new_board@[new_row + i]@
                        == k2[i] by {
                        if i > 0 {
                            assert(new_board@[new_row + i] == prev@[new_row + 1 + (i - 1)]);
                        }
                    }
                    kept = k2;
                }
                new_row = new_row - 1;
            }
        }
        proof {
            assert(g.subrange(0, HEIGHT as int) =~= g);
            let n = full_count(g);
            assert(n == new_row + 1);
            assert forall|i: int| 0 <= i < HEIGHT implies #[trigger] grid(new_board)[i]
                == clear_spec(g)[i] by {
                if i < n {
                    assert(grid(new_board)[i] =~= empty_row());
                } else {
                    assert(new_board@[new_row + 1 + (i - n)] == new_board@[i]);
                }
            }
            assert(grid(new_board) =~= clear_spec(g));
        }
        self.board = new_board;
        cleared
    }

    /// Scores `cleared` rows cleared with `spin`: the lines add to the count,
    /// `clear_points` adds to the score, the level becomes one more than a
    /// tenth of the lines; a clear continues the combo and sets the
    /// back-to-back chain to whether it was difficult, while no clear ends
    /// the combo and leaves the chain. The playfield is not touched.
    pub fn score_rows(&mut self, spin: Spin, cleared: u32)
        requires
            old(self).wf_fields(),
            cleared <= HEIGHT,
            old(self).score_room(cleared as int, spin),
        ensures
            final(self).wf_fields(),
            Game::scored(*old(self), *final(self), cleared as int, spin),
            *final(self) == (Game {
                lines: final(self).lines,
                score: final(self).score,
                level: final(self).level,
                b2b: final(self).b2b,
                combo: final(self).combo,
                ..*old(self)
            }),
    {
        let points = line_clear_points(spin, cleared);
        let level = self.level as u64;
        let base: u64 = points as u64 * level;
        let difficult = cleared > 0 && (cleared >= 4 || spin != Spin::NoSpin);
        let total: u64 = if cleared == 0 {
            base
        } else {
            let line_points = if difficult && self.b2b {
                base * 3 / 2
            } else {
                base
            };
            proof {
                assert(50 * self.combo * level <= u32::MAX) by (nonlinear_arith)
                    requires
                        line_points >= 0,
                        line_points + 50 * self.combo * level <= u32::MAX,
                ;
            }
            line_points + 50 * self.combo as u64 * level
        };
        assert(total == clear_points(
            spin,
            cleared as int,
            old(self).level as int,
            old(self).b2b,
            old(self).combo as int,
        ));
        self.lines = self.lines + cleared;
        self.score = (self.score as u64 + total) as u32;
        self.level = 1 + self.lines / 10;
        if cleared > 0 {
            self.b2b = difficult;
            self.combo = self.combo + 1;
        } else {
            self.combo = 0;
        }
    }

    /// What `clear_lines` with `spin` makes of `before`: the full rows gone,
    /// the rows above fallen, and the clear scored.
    pub open spec fn clear_result(before: Game, after: Game, spin: Spin) -> bool {
        &&& after.grid() == clear_spec(before.grid())
        &&& Game::scored(before, after, full_count(before.grid()) as int, spin)
        &&& after == (Game {
            board: after.board,
            lines: after.lines,
            score: after.score,
            level: after.level,
            b2b: after.b2b,
            combo: after.combo,
            ..before
        })
    }

    /// Removes the full rows, lets the rows above fall, and scores the clear
    /// (see `score_rows`).
    pub fn clear_lines(&mut self, spin: Spin)
        requires
            old(self).wf_fields(),
            old(self).clear_headroom(spin),
        ensures
            final(self).wf_fields(),
            Game::clear_result(*old(self), *final(self), spin),
    {
        let cleared = self.collapse_rows();
        self.score_rows(spin, cleared);
    }

    /// The T-spin a lock of the active piece in this state scores: none
    /// unless the piece is a T whose last move was a rotation; otherwise as
    /// `t_spin_spec` classifies its diagonal neighbours.
    pub open spec fn t_spin(&self) -> Spin {
        if self.active.piece == Piece::T && self.last_rotated {
            t_spin_spec(
                self.grid(),
                self.active.rot as int,
                self.active.row + 1,
                self.active.col + 1,
            )
        } else {
            Spin::NoSpin
        }
    }

    /// The cell `(r, c)` is off the playfield or filled.
    fn corner_is_filled(&self, r: i32, c: i32) -> (res: bool)
        ensures
            res == corner_filled(self.grid(), r as int, c as int),
    {
        if r < 0 || r >= HEIGHT as i32 || c < 0 || c >= WIDTH as i32 {
            true
        } else {
            self.board[r as usize][c as usize].is_some()
        }
    }

    /// Classifies the lock of the active piece as a T-spin, a mini T-spin or
    /// neither.
    pub fn t_spin_kind(&self) -> (res: Spin)
        requires
            self.wf(),
        ensures
            res == self.t_spin(),
    {
        if self.active.piece != Piece::T || !self.last_rotated {
            return Spin::NoSpin;
        }
        let cr = self.active.row + 1;
        let cc = self.active.col + 1;
        let tl = self.corner_is_filled(cr - 1, cc - 1);
        let tr = self.corner_is_filled(cr - 1, cc + 1);
        let bl = self.corner_is_filled(cr + 1, cc - 1);
        let br = self.corner_is_filled(cr + 1, cc + 1);
        let n: u8 = (if tl { 1u8 } else { 0 }) + (if tr { 1u8 } else { 0 }) + (if bl { 1u8 } else { 0 })
            + (if br { 1u8 } else { 0 });
        let rot = self.active.rot;
        let (back1, back2) = if rot == 0 {
            (bl, br)
        } else if rot == 1 {
            (tl, bl)
        } else if rot == 2 {
            (tl, tr)
        } else {
            (tr, br)
        };
        if n < 3 {
            Spin::NoSpin
        } else if back1 && back2 {
            Spin::Full
        } else {
            Spin::Mini
        }
    }

    /// Deals the next piece into the spawn position. If it does not fit
    /// there the game is over; otherwise the lock delay is updated for it.
    pub fn spawn_next(&mut self, now: u64)
        requires
            old(self).wf_fields(),
        ensures
            final(self).wf_fields(),
            final(self).clearing is None ==> final(self).wf(),
            Game::spawn_result(*old(self), *final(self), now),
            *final(self) == (Game {
                active: final(self).active,
                bag: final(self).bag,
                game_over: final(self).game_over,
                lock_timer: final(self).lock_timer,
                lock_resets: final(self).lock_resets,
                last_rotated: false,
                ..*old(self)
            }),
    {
        let piece = self.bag.next();
        self.active = Active { piece, rot: 0, row: SPAWN_ROW, col: SPAWN_COL };
        self.last_rotated = false;
        let cells = self.active.cells();
        if self.collides(&cells) {
            self.game_over = true;
        } else {
            self.after_move(false, now);
        }
    }

    /// The playfield with the active piece written into it.
    pub open spec fn locked_grid(&self) -> Seq<Seq<Option<Piece>>> {
        place_spec(self.grid(), self.active.cells_spec(), self.active.piece)
    }

    /// Writes the on-board cells of the active piece into the playfield.
    fn place_active(&mut self)
        requires
            old(self).wf(),
        ensures
            final(self).grid() == old(self).locked_grid(),
            *final(self) == (Game { board: final(self).board, ..*old(self) }),
    {
        let ghost g0 = self.grid();
        let p = self.active.piece;
        let cells = self.active.cells();
        let ghost cs = cells_of(cells);
        let mut i: usize = 0;
        while i < 4
            invariant
                0 <= i <= 4,
                cs == cells_of(cells),
                cs == old(self).active.cells_spec(),
                p == old(self).active.piece,
                g0 == old(self).grid(),
                *self == (Game { board: self.board, ..*old(self) }),
                forall|r: int, c: int|
                    on_board(r, c) ==> #[trigger] self.grid()[r][c] == if cs.take(i as int).contains(
                        (r, c),
                    ) {
                        Some(p)
                    } else {
                        g0[r][c]
                    },
            decreases 4 - i,
        {
            let (r, c) = cells[i];
            let ghost prev = self.grid();
            if r >= 0 && r < HEIGHT as i32 && c >= 0 && c < WIDTH as i32 {
                self.board[r as usize][c as usize] = Some(p);
            }
            proof {
                assert(cs.take(i + 1) =~= cs.take(i as int).push(cs[i as int]));
                assert forall|r2: int, c2: int| on_board(r2, c2) implies #[trigger] self.grid()[r2][c2]
                    == if cs.take(i + 1).contains((r2, c2)) {
                    Some(p)
                } else {
                    g0[r2][c2]
                } by {
                    if (r2, c2) == cs[i as int] {
                        assert(cs.take(i + 1).contains((r2, c2))) by {
                            assert(cs.take(i + 1)[i as int] == (r2, c2));
                        }
                    } else {
                        assert(self.grid()[r2][c2] == prev[r2][c2]);
                        assert(cs.take(i + 1).contains((r2, c2)) == cs.take(i as int).contains(
                            (r2, c2),
                        ));
                    }
                }
            }
            i = i + 1;
        }
        proof {
            assert(cs.take(4) =~= cs);
            let lg = old(self).locked_grid();
            assert forall|r: int| 0 <= r < HEIGHT implies #[trigger] self.grid()[r] =~= lg[r] by {
                assert forall|c: int| 0 <= c < WIDTH implies self.grid()[r][c] == lg[r][c] by {
                    assert(on_board(r, c));
                }
            }
            assert(self.grid() =~= lg);
        }
    }

    /// Room in the counters for locking the active piece where it is and
    /// scoring what the lock clears, with its T-spin.
    pub open spec fn lock_headroom(&self) -> bool {
        self.score_room(full_count(self.locked_grid()) as int, self.t_spin())
    }

    /// Whether the counters, with the score at `score`, leave room for
    /// scoring `n` cleared rows with `spin`.
    fn room_for(&self, n: u32, spin: Spin, score: u64) -> (res: bool)
        requires
            n <= HEIGHT,
        ensures
            res == (score + clear_points(spin, n as int, self.level as int, self.b2b, self.combo as int)
                <= u32::MAX && self.lines + n <= u32::MAX && (n > 0 ==> self.combo < u32::MAX)),
    {
        let level = self.level as u128;
        let points = line_clear_points(spin, n);
        proof {
            assert(points as u128 * level <= 1600 * 0xFFFF_FFFFu128) by (nonlinear_arith)
                requires
                    points <= 1600,
                    level <= 0xFFFF_FFFFu128,
            ;
            assert(self.combo as u128 * level <= 0xFFFF_FFFFu128 * 0xFFFF_FFFFu128)
                by (nonlinear_arith)
                requires
                    self.combo <= 0xFFFF_FFFFu32,
                    level <= 0xFFFF_FFFFu128,
            ;
            assert(50 * (self.combo as int * self.level as int) == 50 * self.combo as int
                * self.level as int) by (nonlinear_arith);
        }
        let base: u128 = points as u128 * level;
        let difficult = n > 0 && (n >= 4 || spin != Spin::NoSpin);
        let total: u128 = if n == 0 {
            base
        } else {
            (if difficult && self.b2b {
                base * 3 / 2
            } else {
                base
            }) + 50 * (self.combo as u128 * level)
        };
        assert(total == clear_points(
            spin,
            n as int,
            self.level as int,
            self.b2b,
            self.combo as int,
        ));
        score as u128 + total <= u32::MAX as u128 && self.lines as u128 + n as u128
            <= u32::MAX as u128 && (n == 0 || self.combo < u32::MAX)
    }

    /// Whether the counters, with the score at `score`, leave room for
    /// locking the active piece with its box at row `row` as a `spin`.
    pub fn lock_room_at(&self, row: i32, spin: Spin, score: u64) -> (res: bool)
        requires
            self.wf_fields(),
            row < HEIGHT,
        ensures
            res == ({
                let n = full_count(
                    place_spec(
                        self.grid(),
                        placed(self.active.piece, self.active.rot as int % 4, row as int, self.active.col as int),
                        self.active.piece,
                    ),
                );
                score + clear_points(spin, n as int, self.level as int, self.b2b, self.combo as int)
                    <= u32::MAX && self.lines + n <= u32::MAX && (n > 0 ==> self.combo < u32::MAX)
            }),
    {
        let cells = self.active.cells_with(self.active.rot, row, self.active.col);
        let n = count_full_rows_with(&self.board, &cells, self.active.piece);
        self.room_for(n, spin, score)
    }

    /// A newly spawned `p` rests on something in the grid `g`.
    pub open spec fn spawn_grounded(g: Seq<Seq<Option<Piece>>>, p: Piece) -> bool {
        collides_spec(g, placed(p, 0, SPAWN_ROW + 1, SPAWN_COL as int))
    }

    /// The next piece as `spawn_next` deals it into `after` from `before`:
    /// the bag's front (with an empty queue, the first of a fresh bag whose
    /// rest stays queued), at the spawn position; the game ends if it does not
    /// fit, and otherwise its lock delay is updated.
    pub open spec fn spawn_result(before: Game, after: Game, now: u64) -> bool {
        &&& after.active == spawned(after.active.piece)
        &&& after.bag.dealt() == before.bag.dealt().push(after.active.piece)
        &&& before.bag.history().is_prefix_of(after.bag.history())
        &&& before.bag@.len() > 0 ==> after.active.piece == before.bag@[0] && after.bag@
            == before.bag@.drop_first()
        &&& before.bag@.len() == 0 ==> is_full_bag(seq![after.active.piece] + after.bag@)
        &&& after.game_over == (before.game_over || !after.fits_active(after.active))
        &&& after.fits_active(after.active) ==> (after.lock_timer, after.lock_resets) == timer_after(
            before.lock_timer,
            before.lock_resets,
            Game::spawn_grounded(after.grid(), after.active.piece),
            false,
            now,
        )
        &&& !after.fits_active(after.active) ==> after.lock_timer == before.lock_timer
            && after.lock_resets == before.lock_resets
        &&& !after.last_rotated
    }

    /// The counters of `after` are those of `before` once `n` cleared rows
    /// are scored with `spin` (see `score_rows`).
    pub open spec fn scored(before: Game, after: Game, n: int, spin: Spin) -> bool {
        &&& after.lines == before.lines + n
        &&& after.score == before.score + clear_points(
            spin,
            n,
            before.level as int,
            before.b2b,
            before.combo as int,
        )
        &&& after.level == 1 + after.lines / 10
        &&& after.b2b == if n > 0 {
            is_difficult(spin, n)
        } else {
            before.b2b
        }
        &&& after.combo == if n > 0 {
            before.combo + 1
        } else {
            0
        }
    }

    /// What locking the active piece of `before` makes of it, given the time
    /// `now` (see `lock_piece`).
    pub open spec fn lock_result(before: Game, after: Game, now: u64) -> bool {
        let n = full_count(before.locked_grid());
        &&& before.clearing is Some ==> after == before
        &&& before.clearing is None ==> {
            &&& after.grid() == before.locked_grid()
            &&& Game::scored(before, after, n as int, before.t_spin())
        }
        &&& before.clearing is None && n == 0 ==> {
            &&& Game::spawn_result(Game { lock_timer: None, lock_resets: 0, ..before }, after, now)
            &&& after == (Game {
                board: after.board,
                active: after.active,
                bag: after.bag,
                hold_used: false,
                lock_timer: after.lock_timer,
                lock_resets: after.lock_resets,
                score: after.score,
                lines: after.lines,
                level: after.level,
                b2b: after.b2b,
                combo: after.combo,
                game_over: after.game_over,
                last_rotated: false,
                ..before
            })
        }
        &&& before.clearing is None && n > 0 ==> after == (Game {
            board: after.board,
            hold_used: false,
            lock_timer: None,
            lock_resets: 0,
            score: after.score,
            lines: after.lines,
            level: after.level,
            b2b: after.b2b,
            combo: after.combo,
            clearing: Some(Clearing { started: now, spin: before.t_spin() }),
            ..before
        })
    }

    /// Locks the active piece: writes it into the playfield, stops the lock
    /// delay, frees the hold and scores the lock (its full rows and its
    /// T-spin). If rows are full they start flashing, to collapse later
    /// (`finish_clear`); otherwise the next piece spawns. Does nothing while
    /// rows flash.
    pub fn lock_piece(&mut self, now: u64)
        requires
            old(self).wf(),
            old(self).clearing is None ==> old(self).lock_headroom(),
        ensures
            final(self).wf(),
            Game::lock_result(*old(self), *final(self), now),
    {
        if self.clearing.is_some() {
            return;
        }
        let spin = self.t_spin_kind();
        self.place_active();
        self.lock_timer = None;
        self.lock_resets = 0;
        self.hold_used = false;
        let full = count_full_rows(&self.board);
        self.score_rows(spin, full);
        if full > 0 {
            self.clearing = Some(Clearing { started: now, spin });
        } else {
            self.spawn_next(now);
        }
    }

    /// What collapsing the flashing rows of `before` makes of it (see
    /// `finish_clear`).
    pub open spec fn finish_result(before: Game, after: Game, now: u64) -> bool {
        match before.clearing {
            None => after == before,
            Some(c) => {
                &&& after.grid() == clear_spec(before.grid())
                &&& Game::spawn_result(before, after, now)
                &&& after == (Game {
                    board: after.board,
                    active: after.active,
                    bag: after.bag,
                    lock_timer: after.lock_timer,
                    lock_resets: after.lock_resets,
                    game_over: after.game_over,
                    last_rotated: false,
                    clearing: None,
                    ..before
                })
            },
        }
    }

    /// Collapses the flashing rows (already scored by the lock that filled
    /// them) and spawns the next piece.
    pub fn finish_clear(&mut self, now: u64)
        requires
            old(self).wf(),
        ensures
            final(self).wf(),
            Game::finish_result(*old(self), *final(self), now),
    {
        match self.clearing {
            None => {},
            Some(c) => {
                self.collapse_rows();
                self.clearing = None;
                self.spawn_next(now);
            },
        }
    }

    /// How many rows the active piece can fall from box row `row` before it
    /// rests on something.
    pub open spec fn drop_from(&self, row: int) -> nat
        decreases HEIGHT - row,
    {
        if row + 1 < HEIGHT && self.fits(self.active.rot as int, row + 1, self.active.col as int) {
            1 + self.drop_from(row + 1)
        } else {
            0
        }
    }

    /// How many rows the active piece can fall.
    pub open spec fn drop_distance(&self) -> nat {
        self.drop_from(self.active.row as int)
    }

    /// The row the active piece would land on.
    pub open spec fn landing_row(&self) -> int {
        self.active.row + self.drop_distance()
    }

    /// The state just before a hard drop locks: the piece moved down to its
    /// landing row with two points per row fallen.
    pub open spec fn hard_dropped(&self) -> Game {
        Game {
            active: Active { row: self.landing_row() as i32, ..self.active },
            score: (self.score + 2 * self.drop_distance()) as u32,
            last_rotated: if self.drop_distance() == 0 {
                self.last_rotated
            } else {
                false
            },
            ..*self
        }
    }

    /// Room in the counters for a hard drop and its lock.
    pub open spec fn drop_headroom(&self) -> bool {
        &&& self.score + 2 * self.drop_distance() <= u32::MAX
        &&& self.hard_dropped().lock_headroom()
    }

    /// Milliseconds between gravity steps at this level: 800 at level 1, 60
    /// fewer per level, never below 80.
    pub fn gravity_ms(&self) -> (res: u64)
        ensures
            res == gravity_ms_spec(self.level as int),
    {
        let base: i64 = 800;
        let step: i64 = 60;
        let lvl: i64 = self.level as i64 - 1;
        let v = base - step * lvl;
        if v > 80 {
            v as u64
        } else {
            80
        }
    }

    /// The row where the active piece would land if dropped (its ghost).
    pub fn ghost_row(&self) -> (res: i32)
        requires
            self.wf(),
        ensures
            res == self.landing_row(),
            self.active.row <= res < HEIGHT,
    {
        let mut r = self.active.row;
        loop
            invariant
                self.wf(),
                self.active.row <= r < HEIGHT,
                self.drop_distance() == (r - self.active.row) + self.drop_from(r as int),
            decreases HEIGHT - r,
        {
            let cells = self.active.cells_with(self.active.rot, r + 1, self.active.col);
            if self.collides(&cells) {
                return r;
            }
            proof {
                lemma_fit_bounds(
                    self.grid(),
                    self.active.piece,
                    self.active.rot as int % 4,
                    r + 1,
                    self.active.col as int,
                );
            }
            r = r + 1;
        }
    }

    /// Drops the active piece as far as it falls, two points per row, and
    /// locks it.
    pub fn hard_drop(&mut self, now: u64)
        requires
            old(self).wf(),
            old(self).clearing is None ==> old(self).drop_headroom(),
        ensures
            final(self).wf(),
            old(self).clearing is Some ==> *final(self) == *old(self),
            old(self).clearing is None ==> Game::lock_result(
                old(self).hard_dropped(),
                *final(self),
                now,
            ),
    {
        if self.clearing.is_some() {
            return;
        }
        loop
            invariant
                self.wf(),
                old(self).wf(),
                old(self).clearing is None,
                old(self).drop_headroom(),
                old(self).active.row <= self.active.row < HEIGHT,
                *self == (Game {
                    active: Active { row: self.active.row, ..old(self).active },
                    score: (old(self).score + 2 * (self.active.row - old(self).active.row)) as u32,
                    last_rotated: if self.active.row == old(self).active.row {
                        old(self).last_rotated
                    } else {
                        false
                    },
                    lock_timer: self.lock_timer,
                    lock_resets: self.lock_resets,
                    ..*old(self)
                }),
                old(self).drop_distance() == (self.active.row - old(self).active.row)
                    + old(self).drop_from(self.active.row as int),
            ensures
                old(self).drop_from(self.active.row as int) == 0,
            decreases HEIGHT - self.active.row,
        {
            let ghost r = self.active.row;
            if !self.try_move(1, 0, now) {
                proof {
                    assert(self.shifted(1, 0).cells_spec() == placed(
                        old(self).active.piece,
                        old(self).active.rot as int % 4,
                        r + 1,
                        old(self).active.col as int,
                    ));
                    assert(!old(self).fits(old(self).active.rot as int, r + 1, old(self).active.col as int));
                    assert(old(self).drop_from(r as int) == 0);
                }
                break;
            }
            proof {
                lemma_fit_bounds(
                    self.grid(),
                    self.active.piece,
                    self.active.rot as int % 4,
                    r + 1,
                    self.active.col as int,
                );
            }
            self.score = self.score + 2;
        }
        proof {
            assert(old(self).drop_from(self.active.row as int) == 0);
            assert(*self == (Game {
                lock_timer: self.lock_timer,
                lock_resets: self.lock_resets,
                ..old(self).hard_dropped()
            }));
        }
        self.lock_piece(now);
    }

    /// The state after a soft drop: fallen a row for one point, or unchanged.
    pub open spec fn soft_drop_next(&self, now: u64) -> Game {
        if self.clearing is None && self.fits_active(self.shifted(1, 0)) {
            Game { score: (self.score + 1) as u32, ..self.moved_to(self.shifted(1, 0), false, false, now) }
        } else {
            *self
        }
    }

    /// Moves the active piece down one row if it can, for one point.
    pub fn soft_drop(&mut self, now: u64)
        requires
            old(self).wf(),
            old(self).clearing is None && old(self).fits_active(old(self).shifted(1, 0)) ==> old(
                self,
            ).score < u32::MAX,
        ensures
            final(self).wf(),
            *final(self) == old(self).soft_drop_next(now),
    {
        if self.clearing.is_some() {
            return;
        }
        if self.try_move(1, 0, now) {
            self.score = self.score + 1;
        }
    }

    /// One step of gravity: the piece falls a row, or, resting, updates its
    /// lock delay.
    pub fn gravity_tick(&mut self, now: u64)
        requires
            old(self).wf(),
        ensures
            final(self).wf(),
            *final(self) == old(self).gravity_next(now),
    {
        if self.clearing.is_some() {
            return;
        }
        if !self.try_move(1, 0, now) {
            self.after_move(false, now);
        }
    }

    /// The lock delay has run out on a piece that still rests on something.
    pub open spec fn lock_due(&self, now: u64) -> bool {
        self.clearing is None && match self.lock_timer {
            Some(t) => now >= t && now - t >= LOCK_DELAY_NS && self.grounded(),
            None => false,
        }
    }

    /// Locks the active piece if its lock delay has run out and it still
    /// rests on something.
    pub fn check_lock_delay(&mut self, now: u64)
        requires
            old(self).wf(),
            old(self).lock_due(now) ==> old(self).lock_headroom(),
        ensures
            final(self).wf(),
            old(self).lock_due(now) ==> Game::lock_result(*old(self), *final(self), now),
            !old(self).lock_due(now) ==> *final(self) == *old(self),
    {
        let should_lock = self.clearing.is_none() && match self.lock_timer {
            Some(t) => if now >= t {
                now - t >= LOCK_DELAY_NS && self.is_grounded()
            } else {
                false
            },
            None => false,
        };
        if should_lock {
            self.lock_piece(now);
        }
    }

    /// What holding makes of `before`, given the time `now` (see `do_hold`).
    pub open spec fn hold_result(before: Game, after: Game, now: u64) -> bool {
        &&& (before.hold_used || before.clearing is Some) ==> after == before
        &&& !before.hold_used && before.clearing is None ==> {
            &&& after.hold == Some(before.active.piece)
            &&& after.hold_used
            &&& after.active == spawned(after.active.piece)
            &&& before.hold is Some ==> after.active.piece == before.hold->0 && after.bag
                == before.bag
            &&& before.hold is None ==> after.bag.dealt() == before.bag.dealt().push(
                after.active.piece,
            ) && before.bag.history().is_prefix_of(after.bag.history()) && (before.bag@.len() > 0
                ==> after.active.piece == before.bag@[0] && after.bag@ == before.bag@.drop_first())
                && (before.bag@.len() == 0 ==> is_full_bag(seq![after.active.piece] + after.bag@))
            &&& after.game_over == (before.game_over || !before.fits_active(after.active))
            &&& before.fits_active(after.active) ==> (after.lock_timer, after.lock_resets)
                == timer_after(
                None,
                0,
                Game::spawn_grounded(before.grid(), after.active.piece),
                false,
                now,
            )
            &&& !before.fits_active(after.active) ==> after.lock_timer is None
                && after.lock_resets == 0
            &&& after == (Game {
                active: after.active,
                bag: after.bag,
                hold: after.hold,
                hold_used: true,
                lock_timer: after.lock_timer,
                lock_resets: after.lock_resets,
                game_over: after.game_over,
                last_rotated: false,
                ..before
            })
        }
    }

    /// Swaps the active piece with the held one (or, with none held, puts it
    /// on hold and deals the next piece), once per piece.
    pub fn do_hold(&mut self, now: u64)
        requires
            old(self).wf(),
        ensures
            final(self).wf(),
            Game::hold_result(*old(self), *final(self), now),
    {
        if self.hold_used || self.clearing.is_some() {
            return;
        }
        let cur = self.active.piece;
        let new_piece = match self.hold {
            Some(h) => h,
            None => self.bag.next(),
        };
        self.hold = Some(cur);
        self.hold_used = true;
        self.active = Active { piece: new_piece, rot: 0, row: SPAWN_ROW, col: SPAWN_COL };
        self.lock_timer = None;
        self.lock_resets = 0;
        self.last_rotated = false;
        let cells = self.active.cells();
        if self.collides(&cells) {
            self.game_over = true;
        } else {
            self.after_move(false, now);
        }
    }

    /// Shifts the active piece by `dr` rows and `dc` columns if it fits
    /// there; a sideways shift (`dr == 0`) may restart the lock delay.
    pub fn try_move(&mut self, dr: i32, dc: i32, now: u64) -> (res: bool)
        requires
            old(self).wf(),
            placeable(old(self).active.row + dr, old(self).active.col + dc),
        ensures
            final(self).wf(),
            res == (old(self).clearing is None && old(self).fits_active(
                old(self).shifted(dr as int, dc as int),
            )),
            *final(self) == old(self).shift_next(dr as int, dc as int, now),
    {
        if self.clearing.is_some() {
            return false;
        }
        let new_cells = self.active.cells_with(
            self.active.rot,
            self.active.row + dr,
            self.active.col + dc,
        );
        if !self.collides(&new_cells) {
            proof {
                lemma_fit_bounds(
                    self.grid(),
                    self.active.piece,
                    self.active.rot as int % 4,
                    self.active.row + dr,
                    self.active.col + dc,
                );
            }
            self.active.row = self.active.row + dr;
            self.active.col = self.active.col + dc;
            self.last_rotated = false;
            self.after_move(dr == 0, now);
            true
        } else {
            false
        }
    }

    /// Turns the active piece by `dir` quarter turns clockwise, trying the
    /// SRS wall kicks in order and taking the first position that fits.
    pub fn try_rotate(&mut self, dir: i32, now: u64) -> (res: bool)
        requires
            old(self).wf(),
            i32::MIN <= old(self).active.rot + dir <= i32::MAX,
            i32::MIN + 2 <= old(self).active.row,
        ensures
            final(self).wf(),
            res == (old(self).clearing is None && old(self).first_fit_kick(dir as int, 0) is Some),
            *final(self) == old(self).rotate_next(dir as int, now),
    {
        if self.clearing.is_some() {
            return false;
        }
        let new_rot: usize = match (self.active.rot as i32 + dir).checked_rem_euclid(4) {
            Some(v) => v as usize,
            None => 0,
        };
        assert(new_rot == old(self).turned(dir as int));
        let kicks = srs_kicks(self.active.piece, self.active.rot, new_rot);
        let mut i: usize = 0;
        while i < 5
            invariant
                0 <= i <= 5,
                *self == *old(self),
                self.wf(),
                self.clearing is None,
                i32::MIN + 2 <= self.active.row,
                new_rot == old(self).turned(dir as int),
                offsets_of(kicks) == kicks_spec(self.active.piece, self.active.rot as int, new_rot as int),
                old(self).first_fit_kick(dir as int, 0) == old(self).first_fit_kick(dir as int, i as int),
            decreases 5 - i,
        {
            let (kr, kc) = kicks[i];
            proof {
                assert(-2 <= kr <= 2 && -2 <= kc <= 2);
            }
            let cells = self.active.cells_with(new_rot, self.active.row + kr, self.active.col + kc);
            if !self.collides(&cells) {
                let ghost target = old(self).kick_target(dir as int, i as int);
                proof {
                    assert(new_rot < 4);
                    assert(new_rot as int % 4 == new_rot);
                    assert(target.cells_spec() == cells_of(cells));
                    lemma_fit_bounds(
                        self.grid(),
                        self.active.piece,
                        new_rot as int,
                        self.active.row + kr,
                        self.active.col + kc,
                    );
                }
                self.active.rot = new_rot;
                self.active.row = self.active.row + kr;
                self.active.col = self.active.col + kc;
                self.last_rotated = true;
                self.after_move(true, now);
                return true;
            }
            i = i + 1;
        }
        false
    }
}

impl Game {
    /// Records the final score once: `stored` is the saved list, the score
    /// joins it, the best `SCORES_KEEP` are kept, and the best of them
    /// becomes the best score. Returns the list to save, or `None` if this
    /// game's score was already recorded.
    pub fn on_game_over_save(&mut self, stored: Vec<u32>) -> (res: Option<Vec<u32>>)
        ensures
            old(self).score_saved ==> res is None && *final(self) == *old(self),
            !old(self).score_saved ==> (res matches Some(v) && v@ == top_scores_spec(
                stored@.push(old(self).score),
            ) && v@.len() > 0 && *final(self) == (Game {
                best_score: v@[0],
                score_saved: true,
                ..*old(self)
            })),
    {
        if self.score_saved {
            return None;
        }
        let mut scores = stored;
        scores.push(self.score);
        let kept = top_scores(scores);
        proof {
            lemma_top_scores(stored@.push(old(self).score));
        }
        if kept.len() > 0 {
            self.best_score = kept[0];
        }
        self.score_saved = true;
        Some(kept)
    }
}

} // verus!
