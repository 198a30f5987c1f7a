//! Properties of the game that span several moves or hold of every state.

use vstd::prelude::*;

use crate::control::{CellView, Key, KeyOutcome};
use crate::game::{gravity_ms_spec, Game};
use crate::piece::{placed, shape_spec, Active, Piece};
use crate::rules::{
    clear_spec, corner_filled, empty_row, full_count, is_grid, kept_rows, kicks_spec,
    lemma_kept_rows, points_spec, row_full, Spin, HEIGHT,
};
use crate::scores::{lemma_top_scores, sort_desc, sorted_desc, top_scores_spec};

verus! {

/// Every shape is four different cells.
pub proof fn lemma_shape_cells_distinct(p: Piece, r: int)
    ensures
        shape_spec(p, r).len() == 4,
        forall|i: int, j: int|
            0 <= i < j < 4 ==> #[trigger] shape_spec(p, r)[i] != #[trigger] shape_spec(p, r)[j],
{
}

/// The O piece looks the same in every rotation.
pub proof fn lemma_o_rotation_invariant(r: int)
    ensures
        shape_spec(Piece::O, r) == shape_spec(Piece::O, 0),
{
}

/// The O piece turns in place: in a running game it always turns, and it
/// covers the same cells afterwards.
pub proof fn lemma_o_turns_in_place(g: Game, dir: int, now: u64)
    requires
        g.wf(),
        g.in_play(),
        g.active.piece == Piece::O,
    ensures
        g.first_fit_kick(dir, 0) == Some(0int),
        g.rotate_next(dir, now).active.cells_spec() == g.active.cells_spec(),
{
    let t = g.kick_target(dir, 0);
    assert(kicks_spec(Piece::O, g.active.rot as int, g.turned(dir))[0] == (0int, 0int));
    assert(t.cells_spec() =~= g.active.cells_spec());
}

/// Rotation states repeat every four quarter turns.
pub proof fn lemma_rotation_period(a: Active, k: nat)
    ensures
        placed(a.piece, (a.rot + 4 * k) % 4, a.row as int, a.col as int) == a.cells_spec(),
{
    assert((a.rot + 4 * k) % 4 == a.rot as int % 4) by (nonlinear_arith);
}

/// After a line clear the playfield keeps its shape and holds no full row;
/// as many empty rows enter at the top as full rows left.
pub proof fn lemma_clear_leaves_no_full_row(g: Seq<Seq<Option<Piece>>>)
    requires
        is_grid(g),
    ensures
        clear_spec(g).len() == HEIGHT,
        forall|i: int| 0 <= i < HEIGHT ==> !row_full(#[trigger] clear_spec(g)[i]),
        forall|i: int| 0 <= i < full_count(g) ==> #[trigger] clear_spec(g)[i] == empty_row(),
        0 <= full_count(g) <= HEIGHT,
{
    lemma_kept_rows(g);
    let n = full_count(g);
    let k = kept_rows(g);
    assert forall|i: int| 0 <= i < HEIGHT implies !row_full(#[trigger] clear_spec(g)[i]) by {
        if i < n {
            assert(clear_spec(g)[i] == empty_row());
            assert(empty_row()[0] is None);
        } else {
            assert(clear_spec(g)[i] == k[i - n]);
        }
    }
}

/// Rows with none full are all kept.
proof fn lemma_kept_all(rows: Seq<Seq<Option<Piece>>>)
    requires
        forall|i: int| 0 <= i < rows.len() ==> !row_full(#[trigger] rows[i]),
    ensures
        kept_rows(rows) == rows,
    decreases rows.len(),
{
    if rows.len() > 0 {
        assert forall|i: int| 0 <= i < rows.drop_first().len() implies !row_full(
            #[trigger] rows.drop_first()[i],
        ) by {
            assert(rows.drop_first()[i] == rows[i + 1]);
        }
        lemma_kept_all(rows.drop_first());
        assert(!row_full(rows[0]));
        assert(seq![rows[0]] + rows.drop_first() =~= rows);
    }
}

/// Clearing twice in a row: the second clear finds no full row, so the
/// playfield, score, lines and level stay as the first clear left them.
pub proof fn lemma_clear_twice(a: Game, b: Game, c: Game, spin: Spin)
    requires
        Game::clear_result(a, b, spin),
        Game::clear_result(b, c, Spin::NoSpin),
    ensures
        full_count(b.grid()) == 0,
        c.grid() == b.grid(),
        c.score == b.score,
        c.lines == b.lines,
        c.level == b.level,
{
    assert(is_grid(a.grid()));
    lemma_clear_leaves_no_full_row(a.grid());
    lemma_kept_all(b.grid());
    assert(c.grid() =~= b.grid());
}

/// Falling as far as it goes from a fitting position ends in a fitting
/// position that cannot fall further.
proof fn lemma_drop_from(g: Game, row: int)
    requires
        g.fits(g.active.rot as int, row, g.active.col as int),
    ensures
        g.fits(g.active.rot as int, row + g.drop_from(row), g.active.col as int),
        !g.fits(g.active.rot as int, row + g.drop_from(row) + 1, g.active.col as int),
        row + g.drop_from(row) < HEIGHT,
    decreases HEIGHT - row,
{
    crate::game::lemma_fit_bounds(
        g.grid(),
        g.active.piece,
        g.active.rot as int % 4,
        row,
        g.active.col as int,
    );
    if row + 1 < HEIGHT && g.fits(g.active.rot as int, row + 1, g.active.col as int) {
        lemma_drop_from(g, row + 1);
    } else if row + 1 >= HEIGHT && g.fits(g.active.rot as int, row + 1, g.active.col as int) {
        crate::game::lemma_fit_bounds(
            g.grid(),
            g.active.piece,
            g.active.rot as int % 4,
            row + 1,
            g.active.col as int,
        );
    }
}

/// A hard drop puts the piece on its ghost: the landing row, where it still
/// fits and from which it cannot fall.
pub proof fn lemma_hard_drop_lands_on_ghost(g: Game)
    requires
        g.wf(),
        g.in_play(),
    ensures
        g.hard_dropped().active.row == g.landing_row(),
        g.fits_active(g.hard_dropped().active),
        g.hard_dropped().grounded(),
{
    lemma_drop_from(g, g.active.row as int);
}

/// Once a piece is held, holding again does nothing until the next lock.
pub proof fn lemma_hold_once_per_piece(a: Game, b: Game, c: Game, now1: u64, now2: u64)
    requires
        a.clearing is None,
        Game::hold_result(a, b, now1),
        Game::hold_result(b, c, now2),
    ensures
        b.hold_used,
        c == b,
{
}

/// A lock frees the hold for the next piece.
pub proof fn lemma_lock_frees_hold(a: Game, b: Game, now: u64)
    requires
        a.clearing is None,
        Game::lock_result(a, b, now),
    ensures
        !b.hold_used,
{
    lemma_kept_rows(a.locked_grid());
}

/// Locking never takes points or lines away.
pub proof fn lemma_lock_only_adds(a: Game, b: Game, now: u64)
    requires
        Game::lock_result(a, b, now),
    ensures
        b.score >= a.score,
        b.lines >= a.lines,
{
    crate::rules::lemma_kept_rows(a.locked_grid());
}

/// Back-to-back: a Tetris while a chain of difficult clears runs scores one
/// and a half times 800 per level, plus 50 per level for each clear of the
/// running combo, and keeps the chain.
pub proof fn lemma_back_to_back_tetris(before: Game, after: Game)
    requires
        Game::scored(before, after, 4, Spin::NoSpin),
        before.b2b,
    ensures
        after.score == before.score + 1200 * before.level + 50 * before.combo * before.level,
        after.b2b,
        after.combo == before.combo + 1,
{
    assert((800 * before.level as int) * 3 / 2 == 1200 * before.level as int) by (nonlinear_arith);
}

/// A T-spin that clears lines is difficult too: it continues a running
/// chain at one and a half times its points.
pub proof fn lemma_back_to_back_t_spin(before: Game, after: Game)
    requires
        Game::scored(before, after, 2, Spin::Full),
        before.b2b,
    ensures
        after.score == before.score + 1800 * before.level + 50 * before.combo * before.level,
        after.b2b,
{
    assert((1200 * before.level as int) * 3 / 2 == 1800 * before.level as int) by (nonlinear_arith);
}

/// Combo: a single after `k` clearing locks in a row adds 100 per level plus
/// 50 times `k` per level; it is an easy clear, so it ends the back-to-back
/// chain.
pub proof fn lemma_combo_single(before: Game, after: Game)
    requires
        Game::scored(before, after, 1, Spin::NoSpin),
    ensures
        after.score == before.score + 100 * before.level + 50 * before.combo * before.level,
        after.combo == before.combo + 1,
        !after.b2b,
{
}

/// A lock that clears nothing ends the combo, keeps the back-to-back chain,
/// and adds only its T-spin points.
pub proof fn lemma_no_clear_keeps_chain(before: Game, after: Game, spin: Spin)
    requires
        Game::scored(before, after, 0, spin),
    ensures
        after.combo == 0,
        after.b2b == before.b2b,
        after.lines == before.lines,
        after.score == before.score + crate::rules::points_spec(spin, 0) * before.level,
{
}

/// A lock that fills rows scores them at once and makes them flash; the
/// piece is out of play until they collapse.
pub proof fn lemma_full_rows_flash_first(a: Game, b: Game, now: u64)
    requires
        a.clearing is None,
        full_count(a.locked_grid()) > 0,
        Game::lock_result(a, b, now),
    ensures
        b.clearing == Some(crate::game::Clearing { started: now, spin: a.t_spin() }),
        b.grid() == a.locked_grid(),
        Game::scored(a, b, full_count(a.locked_grid()) as int, a.t_spin()),
        !b.in_play(),
{
}

/// Collapsing the flashing rows leaves no full row, adds nothing to the
/// counters (the lock already scored them), and puts a piece back in play
/// unless the game is over.
pub proof fn lemma_collapse_resumes_play(a: Game, b: Game, now: u64)
    requires
        a.clearing is Some,
        Game::finish_result(a, b, now),
    ensures
        b.clearing is None,
        forall|i: int| 0 <= i < HEIGHT ==> !row_full(#[trigger] b.grid()[i]),
        (b.score, b.lines, b.level, b.b2b, b.combo) == (a.score, a.lines, a.level, a.b2b, a.combo),
        !b.game_over ==> b.in_play(),
{
    assert(is_grid(a.grid()));
    lemma_clear_leaves_no_full_row(a.grid());
}

/// Turning clockwise and back counter-clockwise, where neither turn needs a
/// kick, returns the piece to where it was.
pub proof fn lemma_turn_and_back(g: Game, now1: u64, now2: u64)
    requires
        g.wf(),
        g.clearing is None,
        g.fits_active(g.kick_target(1, 0)),
        g.rotate_next(1, now1).fits_active(g.rotate_next(1, now1).kick_target(-1, 0)),
    ensures
        g.rotate_next(1, now1).rotate_next(-1, now2).active == g.active,
{
    let h = g.rotate_next(1, now1);
    assert(g.first_fit_kick(1, 0) == Some(0int));
    assert(kicks_spec(g.active.piece, g.active.rot as int, g.turned(1))[0] == (0int, 0int));
    assert(h.active == g.kick_target(1, 0));
    assert(h.first_fit_kick(-1, 0) == Some(0int));
    assert(kicks_spec(h.active.piece, h.active.rot as int, h.turned(-1))[0] == (0int, 0int));
    assert(h.turned(-1) == g.active.rot);
}

/// Only a T whose last move was a rotation scores a T-spin.
pub proof fn lemma_only_rotated_t_spins(g: Game)
    requires
        g.active.piece != Piece::T || !g.last_rotated,
    ensures
        g.t_spin() == Spin::NoSpin,
{
}

/// Gravity is 800 ms at level 1 and speeds up with the level, never below
/// 80 ms.
pub proof fn lemma_gravity_speeds_up(l1: int, l2: int)
    requires
        1 <= l1 <= l2,
    ensures
        gravity_ms_spec(1) == 800,
        gravity_ms_spec(l2) <= gravity_ms_spec(l1),
        80 <= gravity_ms_spec(l2) <= 800,
{
}

/// The best score kept is the highest of all the scores, and is one of them.
pub proof fn lemma_best_is_highest(s: Seq<u32>)
    requires
        s.len() > 0,
    ensures
        top_scores_spec(s).len() > 0,
        s.contains(top_scores_spec(s)[0]),
        forall|i: int| 0 <= i < s.len() ==> top_scores_spec(s)[0] >= #[trigger] s[i],
{
    broadcast use vstd::seq_lib::group_to_multiset_ensures;

    lemma_top_scores(s);
    crate::scores::lemma_sort_desc_perm(s);
    let t = sort_desc(s);
    assert(t.len() == s.len());
    assert(t.to_multiset().count(t[0]) > 0);
    assert(s.to_multiset().count(t[0]) > 0);
    assert forall|i: int| 0 <= i < s.len() implies top_scores_spec(s)[0] >= #[trigger] s[i] by {
        assert(s.to_multiset().count(s[i]) > 0);
        assert(t.to_multiset().count(s[i]) > 0);
        assert(t.contains(s[i]));
        let j = choose|j: int| 0 <= j < t.len() && t[j] == s[i];
        assert(sorted_desc(t));
        assert(t[0] >= t[j]);
    }
}


/// Turning back undoes the kicks of turning forth: for every piece and every
/// pair of neighbouring rotation states, the tests tried from `b` back to `a`
/// are the tests from `a` to `b` negated, in the same order, and the first
/// test is always no offset.
pub proof fn lemma_kicks_reverse(p: Piece, a: int)
    requires
        0 <= a < 4,
    ensures
        kicks_spec(p, a, (a + 1) % 4).len() == 5,
        kicks_spec(p, (a + 1) % 4, a).len() == 5,
        kicks_spec(p, a, (a + 1) % 4)[0] == (0int, 0int),
        forall|i: int|
            0 <= i < 5 ==> #[trigger] kicks_spec(p, (a + 1) % 4, a)[i] == (
                -kicks_spec(p, a, (a + 1) % 4)[i].0,
                -kicks_spec(p, a, (a + 1) % 4)[i].1,
            ),
{
    assert(kicks_spec(p, a, (a + 1) % 4).len() == 5);
}

/// The J, L, S, T and Z pieces kick by the SRS table, as `(rows down,
/// columns right)`, for the four clockwise turns; with `lemma_kicks_reverse`
/// this fixes the counter-clockwise turns too.
pub proof fn lemma_jlstz_kick_table(p: Piece)
    requires
        p != Piece::I,
        p != Piece::O,
    ensures
        kicks_spec(p, 0, 1) == seq![(0int, 0int), (0, -1), (-1, -1), (2, 0), (2, -1)],
        kicks_spec(p, 1, 0) == seq![(0int, 0int), (0, 1), (1, 1), (-2, 0), (-2, 1)],
        kicks_spec(p, 1, 2) == seq![(0int, 0int), (0, 1), (1, 1), (-2, 0), (-2, 1)],
        kicks_spec(p, 2, 3) == seq![(0int, 0int), (0, 1), (-1, 1), (2, 0), (2, 1)],
        kicks_spec(p, 3, 0) == seq![(0int, 0int), (0, -1), (1, -1), (-2, 0), (-2, -1)],
{
}

/// How many of the four diagonal neighbours of `(cr, cc)` are off the
/// playfield or filled.
pub open spec fn filled_diagonals(g: Seq<Seq<Option<Piece>>>, cr: int, cc: int) -> int {
    (if corner_filled(g, cr - 1, cc - 1) { 1int } else { 0 }) + (if corner_filled(g, cr - 1, cc + 1) {
        1int
    } else {
        0
    }) + (if corner_filled(g, cr + 1, cc - 1) { 1int } else { 0 }) + (if corner_filled(
        g,
        cr + 1,
        cc + 1,
    ) { 1int } else { 0 })
}

/// Both diagonal neighbours on the flat side of a T in rotation `rot`
/// (below it pointing up, left of it pointing right, above it pointing down,
/// right of it pointing left) are off the playfield or filled.
pub open spec fn flat_side_filled(g: Seq<Seq<Option<Piece>>>, rot: int, cr: int, cc: int) -> bool {
    if rot == 0 {
        corner_filled(g, cr + 1, cc - 1) && corner_filled(g, cr + 1, cc + 1)
    } else if rot == 1 {
        corner_filled(g, cr - 1, cc - 1) && corner_filled(g, cr + 1, cc - 1)
    } else if rot == 2 {
        corner_filled(g, cr - 1, cc - 1) && corner_filled(g, cr - 1, cc + 1)
    } else {
        corner_filled(g, cr - 1, cc + 1) && corner_filled(g, cr + 1, cc + 1)
    }
}

/// T-spins by corners: a lock is a T-spin only for a T whose last move was a
/// rotation and with at least three of the four diagonal neighbours of its
/// centre off the playfield or filled; such a lock is a full T-spin exactly
/// when both corners on its flat side are, and a mini otherwise.
pub proof fn lemma_t_spin_by_corners(g: Game)
    requires
        g.active.rot < 4,
    ensures
        filled_diagonals(g.grid(), g.active.row + 1, g.active.col + 1) < 3 ==> g.t_spin()
            == Spin::NoSpin,
        g.t_spin() != Spin::NoSpin <==> (g.active.piece == Piece::T && g.last_rotated
            && filled_diagonals(g.grid(), g.active.row + 1, g.active.col + 1) >= 3),
        g.t_spin() == Spin::Full <==> (g.t_spin() != Spin::NoSpin && flat_side_filled(
            g.grid(),
            g.active.rot as int,
            g.active.row + 1,
            g.active.col + 1,
        )),
{
}

/// The base points of the scoring table.
pub proof fn lemma_points_table()
    ensures
        points_spec(Spin::NoSpin, 0) == 0,
        points_spec(Spin::NoSpin, 1) == 100,
        points_spec(Spin::NoSpin, 2) == 300,
        points_spec(Spin::NoSpin, 3) == 500,
        points_spec(Spin::NoSpin, 4) == 800,
        points_spec(Spin::Full, 0) == 400,
        points_spec(Spin::Full, 1) == 800,
        points_spec(Spin::Full, 2) == 1200,
        points_spec(Spin::Full, 3) == 1600,
        points_spec(Spin::Mini, 0) == 100,
        points_spec(Spin::Mini, 1) == 200,
        points_spec(Spin::Mini, 2) == 400,
{
}

/// Every T-spin or mini that clears lines is a difficult clear, whatever the
/// number of lines: it keeps or starts the back-to-back chain, and while a
/// chain runs it scores one and a half times its points; either way the
/// combo bonus is added.
pub proof fn lemma_spin_clears_are_difficult(before: Game, after: Game, n: int, spin: Spin)
    requires
        Game::scored(before, after, n, spin),
        n >= 1,
        spin != Spin::NoSpin,
    ensures
        after.b2b,
        after.combo == before.combo + 1,
        after.lines == before.lines + n,
        before.b2b ==> after.score == before.score + (points_spec(spin, n) * before.level) * 3 / 2
            + 50 * before.combo * before.level,
        !before.b2b ==> after.score == before.score + points_spec(spin, n) * before.level + 50
            * before.combo * before.level,
{
}

/// A Tetris is difficult too; a single, double or triple without a spin is
/// easy: it ends the chain and scores its plain points plus the combo bonus.
pub proof fn lemma_plain_clears(before: Game, after: Game, n: int)
    requires
        Game::scored(before, after, n, Spin::NoSpin),
        n >= 1,
    ensures
        n >= 4 ==> after.b2b,
        n <= 3 ==> !after.b2b,
        n <= 3 || !before.b2b ==> after.score == before.score + points_spec(Spin::NoSpin, n)
            * before.level + 50 * before.combo * before.level,
{
}

/// Moving sideways: in a running game, right moves the piece one column
/// right when it fits there and leaves it where it is otherwise; left moves
/// it one column left in the same way. Nothing else about the piece changes.
pub proof fn lemma_sideways_keys(a: Game, b: Game, key: Key, now: u64, out: KeyOutcome)
    requires
        a.wf(),
        a.running(),
        key == Key::Left || key == Key::Right,
        Game::key_result(a, b, key, now, out),
    ensures
        out == KeyOutcome::Continue,
        ({
            let dc: int = if key == Key::Right { 1 } else { -1 };
            let target = Active { col: (a.active.col + dc) as i32, ..a.active };
            &&& a.fits_active(target) ==> b.active == target && b.active.col == a.active.col + dc
            &&& !a.fits_active(target) ==> b.active == a.active
        }),
        key == Key::Right ==> b.active.col >= a.active.col,
        key == Key::Left ==> b.active.col <= a.active.col,
        b.active.row == a.active.row,
        b.active.rot == a.active.rot,
        b.grid() == a.grid(),
{
}

/// Soft drop: in a running game the piece moves one row down for one point
/// when it fits there, and nothing moves otherwise.
pub proof fn lemma_soft_drop_key(a: Game, b: Game, now: u64, out: KeyOutcome)
    requires
        a.wf(),
        a.running(),
        a.score < u32::MAX,
        Game::key_result(a, b, Key::SoftDrop, now, out),
    ensures
        ({
            let target = Active { row: (a.active.row + 1) as i32, ..a.active };
            &&& a.fits_active(target) ==> b.active == target && b.score == a.score + 1
            &&& !a.fits_active(target) ==> b.active == a.active && b.score == a.score
        }),
        b.active.col == a.active.col,
        b.grid() == a.grid(),
{
}

/// The quarter turns a turning key makes: one clockwise, or one back.
pub open spec fn turn_dir(key: Key) -> int {
    if key == Key::RotateCw {
        1
    } else {
        -1
    }
}

/// Turning: in a running game a turn either leaves the piece as it was or
/// puts it in the next rotation state in the turn's direction, moved by one
/// of the five kick tests, and fitting there.
pub proof fn lemma_turn_keys(a: Game, b: Game, key: Key, now: u64, out: KeyOutcome)
    requires
        a.wf(),
        a.running(),
        key == Key::RotateCw || key == Key::RotateCcw,
        Game::key_result(a, b, key, now, out),
    ensures
        out == KeyOutcome::Continue,
        b.active == a.active || exists|i: int|
            0 <= i < 5 && b.active == #[trigger] a.kick_target(turn_dir(key), i) && a.fits_active(
                b.active,
            ),
        b.active == a.active || b.active.rot == (a.active.rot + turn_dir(key)) % 4,
        b.active.piece == a.active.piece,
        b.grid() == a.grid(),
{
    let dir = turn_dir(key);
    match a.first_fit_kick(dir, 0) {
        Some(i) => {
            lemma_first_fit_kick(a, dir, 0);
            assert(b.active == a.kick_target(dir, i));
        },
        None => {},
    }
}

/// The first fitting kick test, if any, is among the five and fits.
proof fn lemma_first_fit_kick(g: Game, dir: int, i: int)
    requires
        0 <= i,
    ensures
        g.first_fit_kick(dir, i) matches Some(j) ==> i <= j < 5 && g.fits_active(
            g.kick_target(dir, j),
        ),
    decreases 5 - i,
{
    if i < 5 && !g.fits_active(g.kick_target(dir, i)) {
        lemma_first_fit_kick(g, dir, i + 1);
    }
}

/// Falling from a row on the playfield ends on the playfield.
proof fn lemma_drop_from_below(g: Game, row: int)
    requires
        row < HEIGHT,
    ensures
        row + g.drop_from(row) < HEIGHT,
    decreases HEIGHT - row,
{
    if row + 1 < HEIGHT && g.fits(g.active.rot as int, row + 1, g.active.col as int) {
        lemma_drop_from_below(g, row + 1);
    }
}

/// The ghost: with no rows flashing, an empty cell that the falling piece
/// does not cover shows the piece's shadow exactly when it is one of the
/// cells the piece would cover after a hard drop, the cells the hard drop
/// then fills.
pub proof fn lemma_shadow_is_hard_drop_landing(g: Game, r: int, c: int)
    requires
        g.wf(),
        0 <= r < HEIGHT,
        0 <= c < crate::rules::WIDTH,
    ensures
        (g.cell_view_spec(r, c) is Shadow) <==> (g.clearing is None && g.grid()[r][c] is None
            && !g.active.cells_spec().contains((r, c))
            && g.hard_dropped().active.cells_spec().contains((r, c))),
        g.cell_view_spec(r, c) is Shadow ==> g.cell_view_spec(r, c) == CellView::Shadow(
            g.active.piece,
        ),
{
    lemma_drop_from_below(g, g.active.row as int);
    assert(g.hard_dropped().active.row as int == g.landing_row());
    assert(g.hard_dropped().active.cells_spec() == placed(
        g.active.piece,
        g.active.rot as int % 4,
        g.landing_row(),
        g.active.col as int,
    ));
}

} // verus!
