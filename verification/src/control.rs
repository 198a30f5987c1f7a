//! The decisions of the game loop: what a key press does, when gravity and
//! the lock delay act, how long to wait for input, and what each cell of the
//! playfield shows. The caller reads keys and the clock and draws.

use vstd::prelude::*;

use crate::game::{Game, CLEAR_ANIMATION_NS, LOCK_DELAY_NS};
use crate::piece::{contains_cell, placed, Piece};
use crate::rules::{is_row_full, row_full, Spin, HEIGHT, WIDTH};

verus! {

/// The pieces shown in the preview of upcoming pieces.
pub const NEXT_PREVIEW: usize = 5;

/// Nanoseconds in a millisecond.
pub const NS_PER_MS: u64 = 1_000_000;

/// A key as the game understands it.
#[derive(Clone, Copy, PartialEq, Eq, Debug, Structural)]
pub enum Key {
    Left,
    Right,
    SoftDrop,
    RotateCw,
    RotateCcw,
    HardDrop,
    Hold,
    Pause,
    Restart,
    Quit,
    Other,
}

/// What the loop does after a key.
#[derive(Clone, Copy, PartialEq, Eq, Debug, Structural)]
pub enum KeyOutcome {
    /// Leave the game.
    Quit,
    /// Wait for the next event; gravity and the lock delay do not act now.
    Ignored,
    /// Carry on to gravity and the lock delay.
    Continue,
    /// Restart the gravity clock, then carry on.
    ResetGravityClock,
}

/// What a cell of the playfield shows.
#[derive(Clone, Copy, PartialEq, Eq, Debug, Structural)]
pub enum CellView {
    Locked(Piece),
    Active(Piece),
    Shadow(Piece),
    Flash(Piece),
    Empty,
}

/// The key a character stands for: `q` quits, `r` restarts, `p` pauses,
/// `x` turns clockwise, `z` counter-clockwise, space hard-drops, `c` holds.
pub fn key_for_char(c: char) -> (res: Key)
    ensures
        res == (if c == 'q' {
            Key::Quit
        } else if c == 'r' {
            Key::Restart
        } else if c == 'p' {
            Key::Pause
        } else if c == 'x' {
            Key::RotateCw
        } else if c == 'z' {
            Key::RotateCcw
        } else if c == ' ' {
            Key::HardDrop
        } else if c == 'c' {
            Key::Hold
        } else {
            Key::Other
        }),
{
    if c == 'q' {
        Key::Quit
    } else if c == 'r' {
        Key::Restart
    } else if c == 'p' {
        Key::Pause
    } else if c == 'x' {
        Key::RotateCw
    } else if c == 'z' {
        Key::RotateCcw
    } else if c == ' ' {
        Key::HardDrop
    } else if c == 'c' {
        Key::Hold
    } else {
        Key::Other
    }
}

/// Time from `since` to `now`, zero if `now` is earlier.
pub open spec fn elapsed(now: u64, since: u64) -> int {
    if now >= since {
        now - since
    } else {
        0
    }
}

/// The time from `since` to `now`, zero if `now` is earlier.
fn elapsed_ns(now: u64, since: u64) -> (res: u64)
    ensures
        res == elapsed(now, since),
{
    if now >= since {
        now - since
    } else {
        0
    }
}

impl Game {
    /// The game is neither over nor paused and no rows flash, so moves and
    /// gravity act.
    pub open spec fn running(&self) -> bool {
        !self.game_over && !self.paused && self.clearing is None
    }

    /// Neither over nor paused: the timers act.
    pub open spec fn ticking(&self) -> bool {
        !self.game_over && !self.paused
    }

    /// The flashing rows have flashed long enough to collapse.
    pub open spec fn clear_due(&self, now: u64) -> bool {
        match self.clearing {
            Some(c) => elapsed(now, c.started) >= CLEAR_ANIMATION_NS,
            None => false,
        }
    }

    /// The counters and coordinates leave room for what `key` does.
    pub open spec fn key_safe(&self, key: Key) -> bool {
        self.running() ==> match key {
            Key::SoftDrop => self.fits_active(self.shifted(1, 0)) ==> self.score < u32::MAX,
            Key::HardDrop => self.drop_headroom(),
            Key::RotateCw => i32::MIN + 2 <= self.active.row,
            Key::RotateCcw => i32::MIN + 2 <= self.active.row,
            _ => true,
        }
    }

    /// What `key` makes of `before` at time `now`, and what the loop does
    /// next.
    pub open spec fn key_result(
        before: Game,
        after: Game,
        key: Key,
        now: u64,
        outcome: KeyOutcome,
    ) -> bool {
        match key {
            Key::Quit => outcome == KeyOutcome::Quit && after == before,
            Key::Restart => outcome == KeyOutcome::ResetGravityClock && Game::is_new_game(
                after,
                before.best_score,
            ),
            Key::Pause => outcome == KeyOutcome::Continue && after == if before.game_over {
                before
            } else {
                Game { paused: !before.paused, ..before }
            },
            _ => if !before.running() {
                outcome == KeyOutcome::Ignored && after == before
            } else {
                match key {
                    Key::Left => outcome == KeyOutcome::Continue && after == before.shift_next(
                        0,
                        -1,
                        now,
                    ),
                    Key::Right => outcome == KeyOutcome::Continue && after == before.shift_next(
                        0,
                        1,
                        now,
                    ),
                    Key::SoftDrop => outcome == KeyOutcome::ResetGravityClock && after
                        == before.soft_drop_next(now),
                    Key::RotateCw => outcome == KeyOutcome::Continue && after == before.rotate_next(
                        1,
                        now,
                    ),
                    Key::RotateCcw => outcome == KeyOutcome::Continue && after
                        == before.rotate_next(-1, now),
                    Key::HardDrop => outcome == KeyOutcome::ResetGravityClock && Game::lock_result(
                        before.hard_dropped(),
                        after,
                        now,
                    ),
                    Key::Hold => outcome == KeyOutcome::Continue && Game::hold_result(
                        before,
                        after,
                        now,
                    ),
                    _ => outcome == KeyOutcome::Continue && after == before,
                }
            },
        }
    }

    /// Whether the counters and coordinates leave room for what `key` does;
    /// `handle_key` asks for this.
    pub fn key_is_safe(&self, key: Key) -> (res: bool)
        requires
            self.wf(),
        ensures
            res == self.key_safe(key),
    {
        if self.game_over || self.paused || self.clearing.is_some() {
            return true;
        }
        match key {
            Key::SoftDrop => {
                let cells = self.active.cells_with(
                    self.active.rot,
                    self.active.row + 1,
                    self.active.col,
                );
                self.collides(&cells) || self.score < u32::MAX
            },
            Key::HardDrop => {
                let landing = self.ghost_row();
                let d = (landing as i64 - self.active.row as i64) as u64;
                let score = self.score as u64 + 2 * d;
                if score > u32::MAX as u64 {
                    return false;
                }
                let spin = if d == 0 {
                    self.t_spin_kind()
                } else {
                    Spin::NoSpin
                };
                let res = self.lock_room_at(landing, spin, score);
                proof {
                    let hd = self.hard_dropped();
                    assert(hd.active.cells_spec() == placed(
                        self.active.piece,
                        self.active.rot as int % 4,
                        landing as int,
                        self.active.col as int,
                    ));
                    assert(hd.t_spin() == spin);
                    assert(hd.score == score);
                }
                res
            },
            Key::RotateCw => self.active.row >= i32::MIN + 2,
            Key::RotateCcw => self.active.row >= i32::MIN + 2,
            _ => true,
        }
    }

    /// Applies a key: quit, restart, pause, or, while the game runs, a move,
    /// rotation, drop or hold.
    pub fn handle_key(&mut self, key: Key, now: u64) -> (res: KeyOutcome)
        requires
            old(self).wf(),
            old(self).key_safe(key),
        ensures
            final(self).wf(),
            Game::key_result(*old(self), *final(self), key, now, res),
    {
        match key {
            Key::Quit => {
                return KeyOutcome::Quit;
            },
            Key::Restart => {
                *self = Game::new(self.best_score);
                return KeyOutcome::ResetGravityClock;
            },
            Key::Pause => {
                if !self.game_over {
                    self.paused = !self.paused;
                }
                return KeyOutcome::Continue;
            },
            _ => {},
        }
        if self.game_over || self.paused || self.clearing.is_some() {
            return KeyOutcome::Ignored;
        }
        match key {
            Key::Left => {
                self.try_move(0, -1, now);
                KeyOutcome::Continue
            },
            Key::Right => {
                self.try_move(0, 1, now);
                KeyOutcome::Continue
            },
            Key::SoftDrop => {
                self.soft_drop(now);
                KeyOutcome::ResetGravityClock
            },
            Key::RotateCw => {
                self.try_rotate(1, now);
                KeyOutcome::Continue
            },
            Key::RotateCcw => {
                self.try_rotate(-1, now);
                KeyOutcome::Continue
            },
            Key::HardDrop => {
                self.hard_drop(now);
                KeyOutcome::ResetGravityClock
            },
            Key::Hold => {
                self.do_hold(now);
                KeyOutcome::Continue
            },
            _ => KeyOutcome::Continue,
        }
    }

    /// Gravity is due: a gravity interval has passed since `last_tick`.
    pub open spec fn gravity_due(&self, now: u64, last_tick: u64) -> bool {
        elapsed(now, last_tick) >= crate::game::gravity_ms_spec(self.level as int) * NS_PER_MS
    }

    /// The state after gravity, before the lock delay is checked.
    pub open spec fn timer_mid(&self, now: u64, last_tick: u64) -> Game {
        if self.gravity_due(now, last_tick) {
            self.gravity_next(now)
        } else {
            *self
        }
    }

    /// The counters leave room for a lock that the timers may bring.
    pub open spec fn timer_safe(&self, now: u64, last_tick: u64) -> bool {
        self.running() && self.timer_mid(now, last_tick).lock_due(now) ==> self.timer_mid(
            now,
            last_tick,
        ).lock_headroom()
    }

    /// Whether the counters leave room for a lock the timers may bring;
    /// `on_timer` asks for this.
    pub fn timer_is_safe(&self, now: u64, last_tick: u64) -> (res: bool)
        requires
            self.wf(),
        ensures
            res == self.timer_safe(now, last_tick),
    {
        if self.game_over || self.paused || self.clearing.is_some() {
            return true;
        }
        let row = self.active.row;
        let col = self.active.col;
        let rot = self.active.rot;
        let below = self.active.cells_with(rot, row + 1, col);
        let can_fall = !self.collides(&below);
        let (timer, grounded) = if elapsed_ns(now, last_tick) >= self.gravity_ms() * NS_PER_MS {
            if can_fall {
                proof {
                    crate::game::lemma_fit_bounds(
                        self.grid(),
                        self.active.piece,
                        rot as int % 4,
                        row + 1,
                        col as int,
                    );
                }
                let two_below = self.active.cells_with(rot, row + 2, col);
                let g2 = self.collides(&two_below);
                let t = if g2 {
                    match self.lock_timer {
                        None => Some(now),
                        Some(_) => self.lock_timer,
                    }
                } else {
                    None
                };
                (t, g2)
            } else {
                let t = match self.lock_timer {
                    None => Some(now),
                    Some(_) => self.lock_timer,
                };
                (t, true)
            }
        } else {
            (self.lock_timer, !can_fall)
        };
        let due = match timer {
            Some(t) => now >= t && now - t >= LOCK_DELAY_NS && grounded,
            None => false,
        };
        proof {
            let mid = self.timer_mid(now, last_tick);
            assert(mid.lock_timer == timer);
            assert(mid.grounded() == grounded);
        }
        if !due {
            return true;
        }
        let falls = can_fall && elapsed_ns(now, last_tick) >= self.gravity_ms() * NS_PER_MS;
        let mid_row = if falls {
            row + 1
        } else {
            row
        };
        let spin = if falls {
            Spin::NoSpin
        } else {
            self.t_spin_kind()
        };
        let res = self.lock_room_at(mid_row, spin, self.score as u64);
        proof {
            let mid = self.timer_mid(now, last_tick);
            assert(mid.active.cells_spec() == placed(
                self.active.piece,
                self.active.rot as int % 4,
                mid_row as int,
                self.active.col as int,
            ));
            assert(mid.t_spin() == spin);
        }
        res
    }

    /// While the game runs: applies gravity if it is due since `last_tick`
    /// (returning `true`, so the caller restarts its gravity clock), then
    /// locks the piece if its lock delay has run out. While rows flash, only
    /// collapses them once the flash is over (and returns `true`, as the new
    /// piece starts its fall).
    pub fn on_timer(&mut self, now: u64, last_tick: u64) -> (res: bool)
        requires
            old(self).wf(),
            old(self).timer_safe(now, last_tick),
        ensures
            final(self).wf(),
            !old(self).ticking() ==> !res && *final(self) == *old(self),
            old(self).ticking() && old(self).clearing is Some ==> {
                &&& res == old(self).clear_due(now)
                &&& old(self).clear_due(now) ==> Game::finish_result(*old(self), *final(self), now)
                &&& !old(self).clear_due(now) ==> *final(self) == *old(self)
            },
            old(self).running() ==> {
                &&& res == old(self).gravity_due(now, last_tick)
                &&& old(self).timer_mid(now, last_tick).lock_due(now) ==> Game::lock_result(
                    old(self).timer_mid(now, last_tick),
                    *final(self),
                    now,
                )
                &&& !old(self).timer_mid(now, last_tick).lock_due(now) ==> *final(self)
                    == old(self).timer_mid(now, last_tick)
            },
    {
        if self.game_over || self.paused {
            return false;
        }
        if let Some(c) = self.clearing {
            if elapsed_ns(now, c.started) >= CLEAR_ANIMATION_NS {
                self.finish_clear(now);
                return true;
            }
            return false;
        }
        let mut ticked = false;
        if elapsed_ns(now, last_tick) >= self.gravity_ms() * NS_PER_MS {
            self.gravity_tick(now);
            ticked = true;
        }
        self.check_lock_delay(now);
        ticked
    }

    /// How long to wait for input: 100 ms while over or paused; while rows
    /// flash, until the flash ends; otherwise until gravity or the lock delay
    /// is due (a missing lock delay counts as one second); at least 1 ms.
    pub open spec fn poll_timeout(&self, now: u64, last_tick: u64) -> int {
        if !self.ticking() {
            100 * NS_PER_MS
        } else if self.clearing is Some {
            let e = elapsed(now, self.clearing->0.started);
            if e >= CLEAR_ANIMATION_NS {
                NS_PER_MS as int
            } else {
                CLEAR_ANIMATION_NS - e
            }
        } else {
            let g = crate::game::gravity_ms_spec(self.level as int) * NS_PER_MS;
            let gravity_left = if g >= elapsed(now, last_tick) {
                g - elapsed(now, last_tick)
            } else {
                0
            };
            let lock_left = match self.lock_timer {
                Some(t) => if LOCK_DELAY_NS >= elapsed(now, t) {
                    LOCK_DELAY_NS - elapsed(now, t)
                } else {
                    0
                },
                None => 1000 * NS_PER_MS,
            };
            let t = if gravity_left <= lock_left {
                gravity_left
            } else {
                lock_left
            };
            if t == 0 {
                NS_PER_MS as int
            } else {
                t
            }
        }
    }

    /// How long to wait for input, in nanoseconds.
    pub fn poll_timeout_ns(&self, now: u64, last_tick: u64) -> (res: u64)
        ensures
            res == self.poll_timeout(now, last_tick),
    {
        if self.game_over || self.paused {
            return 100 * NS_PER_MS;
        }
        if let Some(c) = self.clearing {
            let e = elapsed_ns(now, c.started);
            return if e >= CLEAR_ANIMATION_NS {
                NS_PER_MS
            } else {
                CLEAR_ANIMATION_NS - e
            };
        }
        let g = self.gravity_ms() * NS_PER_MS;
        let e = elapsed_ns(now, last_tick);
        let gravity_left = if g >= e {
            g - e
        } else {
            0
        };
        let lock_left = match self.lock_timer {
            Some(t) => {
                let le = elapsed_ns(now, t);
                if LOCK_DELAY_NS >= le {
                    LOCK_DELAY_NS - le
                } else {
                    0
                }
            },
            None => 1000 * NS_PER_MS,
        };
        let t = if gravity_left <= lock_left {
            gravity_left
        } else {
            lock_left
        };
        if t == 0 {
            NS_PER_MS
        } else {
            t
        }
    }

    /// What cell `(r, c)` shows: a locked block (flashing if its row is
    /// full and rows are flashing); else, while a piece is falling, the
    /// active piece, or its ghost at its landing row; else nothing.
    pub open spec fn cell_view_spec(&self, r: int, c: int) -> CellView {
        if self.grid()[r][c] is Some {
            if self.clearing is Some && row_full(self.grid()[r]) {
                CellView::Flash(self.grid()[r][c]->0)
            } else {
                CellView::Locked(self.grid()[r][c]->0)
            }
        } else if self.clearing is Some {
            CellView::Empty
        } else if self.active.cells_spec().contains((r, c)) {
            CellView::Active(self.active.piece)
        } else if placed(
            self.active.piece,
            self.active.rot as int % 4,
            self.landing_row(),
            self.active.col as int,
        ).contains((r, c)) {
            CellView::Shadow(self.active.piece)
        } else {
            CellView::Empty
        }
    }

    /// What cell `(r, c)` of the playfield shows.
    pub fn cell_view(&self, r: usize, c: usize) -> (res: CellView)
        requires
            self.wf(),
            r < HEIGHT,
            c < WIDTH,
        ensures
            res == self.cell_view_spec(r as int, c as int),
    {
        if let Some(p) = self.board[r][c] {
            if self.clearing.is_some() && is_row_full(&self.board[r]) {
                return CellView::Flash(p);
            }
            return CellView::Locked(p);
        }
        if self.clearing.is_some() {
            return CellView::Empty;
        }
        let active = self.active.cells();
        if contains_cell(&active, r as i32, c as i32) {
            return CellView::Active(self.active.piece);
        }
        let ghost_r = self.ghost_row();
        let shadow = self.active.cells_with(self.active.rot, ghost_r, self.active.col);
        if contains_cell(&shadow, r as i32, c as i32) {
            return CellView::Shadow(self.active.piece);
        }
        CellView::Empty
    }
}

} // verus!
