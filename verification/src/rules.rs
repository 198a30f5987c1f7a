//! The rules of the playfield as mathematics, and the tables of the game:
//! collision, full rows and line clears, SRS wall kicks, T-spin corners and
//! the scoring table.

use vstd::prelude::*;

use crate::piece::{cells_of, contains_cell, Piece};

verus! {

/// Columns of the playfield.
pub const WIDTH: usize = 10;

/// Rows of the playfield.
pub const HEIGHT: usize = 20;

/// The playfield: `HEIGHT` rows of `WIDTH` cells, row 0 at the top. A filled
/// cell remembers which piece filled it.
pub type Board = [[Option<Piece>; WIDTH]; HEIGHT];

/// The playfield as a grid of rows.
pub open spec fn grid(b: Board) -> Seq<Seq<Option<Piece>>> {
    Seq::new(HEIGHT as nat, |r: int| b@[r]@)
}

/// A grid of the playfield's shape.
pub open spec fn is_grid(g: Seq<Seq<Option<Piece>>>) -> bool {
    g.len() == HEIGHT && forall|r: int| 0 <= r < HEIGHT ==> #[trigger] g[r].len() == WIDTH
}

/// `(r, c)` is on the playfield.
pub open spec fn on_board(r: int, c: int) -> bool {
    0 <= r < HEIGHT && 0 <= c < WIDTH
}

/// A piece may not cover `(r, c)`: it lies beside or below the playfield, or
/// on a filled cell. The space above the playfield is open.
pub open spec fn blocked(g: Seq<Seq<Option<Piece>>>, r: int, c: int) -> bool {
    c < 0 || c >= WIDTH || r >= HEIGHT || (r >= 0 && g[r][c] is Some)
}

/// Some cell of `cells` is blocked.
pub open spec fn collides_spec(g: Seq<Seq<Option<Piece>>>, cells: Seq<(int, int)>) -> bool {
    exists|i: int| 0 <= i < cells.len() && #[trigger] blocked(g, cells[i].0, cells[i].1)
}

/// The grid after filling the on-board cells of `cells` with `p`.
pub open spec fn place_spec(g: Seq<Seq<Option<Piece>>>, cells: Seq<(int, int)>, p: Piece) -> Seq<
    Seq<Option<Piece>>,
> {
    Seq::new(
        HEIGHT as nat,
        |r: int|
            Seq::new(WIDTH as nat, |c: int| if cells.contains((r, c)) { Some(p) } else { g[r][c] }),
    )
}

/// Every cell of the row is filled.
pub open spec fn row_full(row: Seq<Option<Piece>>) -> bool {
    forall|c: int| 0 <= c < WIDTH ==> #[trigger] row[c] is Some
}

/// A row with no filled cell.
pub open spec fn empty_row() -> Seq<Option<Piece>> {
    Seq::new(WIDTH as nat, |c: int| None)
}

/// A full row check on one row of the playfield.
pub fn is_row_full(row: &[Option<Piece>; WIDTH]) -> (res: bool)
    ensures
        res == row_full(row@),
{
    let mut c: usize = 0;
    while c < WIDTH
        invariant
            0 <= c <= WIDTH,
            forall|j: int| 0 <= j < c ==> #[trigger] row@[j] is Some,
        decreases WIDTH - c,
    {
        if row[c].is_none() {
            return false;
        }
        c = c + 1;
    }
    true
}

/// The rows that are not full, in their order.
pub open spec fn kept_rows(rows: Seq<Seq<Option<Piece>>>) -> Seq<Seq<Option<Piece>>>
    decreases rows.len(),
{
    if rows.len() == 0 {
        Seq::empty()
    } else if row_full(rows[0]) {
        kept_rows(rows.drop_first())
    } else {
        seq![rows[0]] + kept_rows(rows.drop_first())
    }
}

/// How many rows are full.
pub open spec fn full_count(rows: Seq<Seq<Option<Piece>>>) -> int {
    rows.len() - kept_rows(rows).len()
}

/// Keeping the rows from `r` on: row `r` stays unless it is full.
pub proof fn lemma_kept_step(rows: Seq<Seq<Option<Piece>>>, r: int)
    requires
        0 <= r < rows.len(),
    ensures
        kept_rows(rows.subrange(r, rows.len() as int)) == if row_full(rows[r]) {
            kept_rows(rows.subrange(r + 1, rows.len() as int))
        } else {
            seq![rows[r]] + kept_rows(rows.subrange(r + 1, rows.len() as int))
        },
{
    let s = rows.subrange(r, rows.len() as int);
    assert(s.drop_first() =~= rows.subrange(r + 1, rows.len() as int));
    assert(s[0] == rows[r]);
}

/// No more rows are kept than there are, and none of them is full.
pub proof fn lemma_kept_rows(rows: Seq<Seq<Option<Piece>>>)
    ensures
        kept_rows(rows).len() <= rows.len(),
        forall|i: int| 0 <= i < kept_rows(rows).len() ==> !row_full(#[trigger] kept_rows(rows)[i]),
    decreases rows.len(),
{
    if rows.len() > 0 {
        lemma_kept_rows(rows.drop_first());
        let k = kept_rows(rows.drop_first());
        if !row_full(rows[0]) {
            assert forall|i: int| 0 <= i < kept_rows(rows).len() implies !row_full(
                #[trigger] kept_rows(rows)[i],
            ) by {
                if i > 0 {
                    assert(kept_rows(rows)[i] == k[i - 1]);
                }
            }
        }
    }
}

/// How many rows of the playfield are full.
pub fn count_full_rows(board: &Board) -> (res: u32)
    ensures
        res == full_count(grid(*board)),
        res <= HEIGHT,
{
    let ghost g = grid(*board);
    let mut count: u32 = 0;
    let ghost mut kept: Seq<Seq<Option<Piece>>> = Seq::empty();
    let mut r: usize = HEIGHT;
    proof {
        assert(kept =~= kept_rows(g.subrange(HEIGHT as int, HEIGHT as int)));
    }
    while r > 0
        invariant
            0 <= r <= HEIGHT,
            g == grid(*board),
            kept == kept_rows(g.subrange(r as int, HEIGHT as int)),
            kept.len() <= HEIGHT - r,
            count == (HEIGHT - r) - kept.len(),
        decreases r,
    {
        r = r - 1;
        proof {
            lemma_kept_step(g, r as int);
        }
        if is_row_full(&board[r]) {
            count = count + 1;
        } else {
            proof {
                kept = seq![g[r as int]] + kept;
            }
        }
    }
    proof {
        assert(g.subrange(0, HEIGHT as int) =~= g);
    }
    count
}

/// How many rows of the playfield are full once `cells` are filled with
/// `p`.
pub fn count_full_rows_with(board: &Board, cells: &[(i32, i32); 4], p: Piece) -> (res: u32)
    ensures
        res == full_count(place_spec(grid(*board), cells_of(*cells), p)),
        res <= HEIGHT,
{
    let ghost pg = place_spec(grid(*board), cells_of(*cells), p);
    let mut count: u32 = 0;
    let ghost mut kept: Seq<Seq<Option<Piece>>> = Seq::empty();
    let mut r: usize = HEIGHT;
    proof {
        assert(kept =~= kept_rows(pg.subrange(HEIGHT as int, HEIGHT as int)));
    }
    while r > 0
        invariant
            0 <= r <= HEIGHT,
            pg == place_spec(grid(*board), cells_of(*cells), p),
            kept == kept_rows(pg.subrange(r as int, HEIGHT as int)),
            kept.len() <= HEIGHT - r,
            count == (HEIGHT - r) - kept.len(),
        decreases r,
    {
        r = r - 1;
        proof {
            lemma_kept_step(pg, r as int);
        }
        let mut c: usize = 0;
        let mut full = true;
        while c < WIDTH
            invariant
                0 <= c <= WIDTH,
                r < HEIGHT,
                pg == place_spec(grid(*board), cells_of(*cells), p),
                full == forall|j: int| 0 <= j < c ==> #[trigger] pg[r as int][j] is Some,
            decreases WIDTH - c,
        {
            let here = board[r][c].is_some() || contains_cell(cells, r as i32, c as i32);
            proof {
                assert(pg[r as int][c as int] == if cells_of(*cells).contains((r as int, c as int)) {
                    Some(p)
                } else {
                    board@[r as int]@[c as int]
                });
                assert(here == pg[r as int][c as int] is Some);
                if full && here {
                    assert forall|j: int| 0 <= j < c + 1 implies #[trigger] pg[r as int][j] is Some by {}
                }
            }
            if !here {
                full = false;
            }
            c = c + 1;
        }
        if full {
            count = count + 1;
        } else {
            proof {
                kept = seq![pg[r as int]] + kept;
            }
        }
    }
    proof {
        assert(pg.subrange(0, HEIGHT as int) =~= pg);
    }
    count
}

/// The grid after a line clear: the full rows are removed, the others fall
/// and keep their order, and empty rows come in at the top.
pub open spec fn clear_spec(g: Seq<Seq<Option<Piece>>>) -> Seq<Seq<Option<Piece>>> {
    Seq::new(full_count(g) as nat, |i: int| empty_row()) + kept_rows(g)
}

/// The offsets `(dr, dc)` the SRS tries, in order, when a J, L, S, T or Z
/// turns from state `from` to state `to`.
pub open spec fn jlstz_kicks(from: int, to: int) -> Seq<(int, int)> {
    if from == 0 && to == 1 {
        seq![(0int, 0int), (0, -1), (-1, -1), (2, 0), (2, -1)]
    } else if from == 1 && to == 0 {
        seq![(0int, 0int), (0, 1), (1, 1), (-2, 0), (-2, 1)]
    } else if from == 1 && to == 2 {
        seq![(0int, 0int), (0, 1), (1, 1), (-2, 0), (-2, 1)]
    } else if from == 2 && to == 1 {
        seq![(0int, 0int), (0, -1), (-1, -1), (2, 0), (2, -1)]
    } else if from == 2 && to == 3 {
        seq![(0int, 0int), (0, 1), (-1, 1), (2, 0), (2, 1)]
    } else if from == 3 && to == 2 {
        seq![(0int, 0int), (0, -1), (1, -1), (-2, 0), (-2, -1)]
    } else if from == 3 && to == 0 {
        seq![(0int, 0int), (0, -1), (1, -1), (-2, 0), (-2, -1)]
    } else if from == 0 && to == 3 {
        seq![(0int, 0int), (0, 1), (-1, 1), (2, 0), (2, 1)]
    } else {
        seq![(0int, 0int), (0, 0), (0, 0), (0, 0), (0, 0)]
    }
}

/// The offsets `(dr, dc)` the SRS tries, in order, when the I piece turns from
/// state `from` to state `to`.
pub open spec fn i_kicks(from: int, to: int) -> Seq<(int, int)> {
    if from == 0 && to == 1 {
        seq![(0int, 0int), (0, -2), (0, 1), (1, -2), (-2, 1)]
    } else if from == 1 && to == 0 {
        seq![(0int, 0int), (0, 2), (0, -1), (-1, 2), (2, -1)]
    } else if from == 1 && to == 2 {
        seq![(0int, 0int), (0, -1), (0, 2), (-2, -1), (1, 2)]
    } else if from == 2 && to == 1 {
        seq![(0int, 0int), (0, 1), (0, -2), (2, 1), (-1, -2)]
    } else if from == 2 && to == 3 {
        seq![(0int, 0int), (0, 2), (0, -1), (-1, 2), (2, -1)]
    } else if from == 3 && to == 2 {
        seq![(0int, 0int), (0, -2), (0, 1), (1, -2), (-2, 1)]
    } else if from == 3 && to == 0 {
        seq![(0int, 0int), (0, 1), (0, -2), (2, 1), (-1, -2)]
    } else if from == 0 && to == 3 {
        seq![(0int, 0int), (0, -1), (0, 2), (-2, -1), (1, 2)]
    } else {
        seq![(0int, 0int), (0, 0), (0, 0), (0, 0), (0, 0)]
    }
}

/// The five offsets tried when `p` turns from state `from` to state `to`.
/// The O piece turns in place.
pub open spec fn kicks_spec(p: Piece, from: int, to: int) -> Seq<(int, int)> {
    match p {
        Piece::I => i_kicks(from, to),
        Piece::O => seq![(0int, 0int), (0, 0), (0, 0), (0, 0), (0, 0)],
        _ => jlstz_kicks(from, to),
    }
}

/// The offsets held in an array, as mathematical pairs.
pub open spec fn offsets_of(a: [(i32, i32); 5]) -> Seq<(int, int)> {
    Seq::new(5, |i: int| (a@[i].0 as int, a@[i].1 as int))
}

/// The five offsets tried when `p` turns from state `from` to state `to`.
pub fn srs_kicks(p: Piece, from: usize, to: usize) -> (res: [(i32, i32); 5])
    ensures
        offsets_of(res) == kicks_spec(p, from as int, to as int),
{
    let res = match p {
        Piece::I => if from == 0 && to == 1 {
            [(0, 0), (0, -2), (0, 1), (1, -2), (-2, 1)]
        } else if from == 1 && to == 0 {
            [(0, 0), (0, 2), (0, -1), (-1, 2), (2, -1)]
        } else if from == 1 && to == 2 {
            [(0, 0), (0, -1), (0, 2), (-2, -1), (1, 2)]
        } else if from == 2 && to == 1 {
            [(0, 0), (0, 1), (0, -2), (2, 1), (-1, -2)]
        } else if from == 2 && to == 3 {
            [(0, 0), (0, 2), (0, -1), (-1, 2), (2, -1)]
        } else if from == 3 && to == 2 {
            [(0, 0), (0, -2), (0, 1), (1, -2), (-2, 1)]
        } else if from == 3 && to == 0 {
            [(0, 0), (0, 1), (0, -2), (2, 1), (-1, -2)]
        } else if from == 0 && to == 3 {
            [(0, 0), (0, -1), (0, 2), (-2, -1), (1, 2)]
        } else {
            [(0, 0), (0, 0), (0, 0), (0, 0), (0, 0)]
        },
        Piece::O => [(0, 0), (0, 0), (0, 0), (0, 0), (0, 0)],
        _ => if from == 0 && to == 1 {
            [(0, 0), (0, -1), (-1, -1), (2, 0), (2, -1)]
        } else if from == 1 && to == 0 {
            [(0, 0), (0, 1), (1, 1), (-2, 0), (-2, 1)]
        } else if from == 1 && to == 2 {
            [(0, 0), (0, 1), (1, 1), (-2, 0), (-2, 1)]
        } else if from == 2 && to == 1 {
            [(0, 0), (0, -1), (-1, -1), (2, 0), (2, -1)]
        } else if from == 2 && to == 3 {
            [(0, 0), (0, 1), (-1, 1), (2, 0), (2, 1)]
        } else if from == 3 && to == 2 {
            [(0, 0), (0, -1), (1, -1), (-2, 0), (-2, -1)]
        } else if from == 3 && to == 0 {
            [(0, 0), (0, -1), (1, -1), (-2, 0), (-2, -1)]
        } else if from == 0 && to == 3 {
            [(0, 0), (0, 1), (-1, 1), (2, 0), (2, 1)]
        } else {
            [(0, 0), (0, 0), (0, 0), (0, 0), (0, 0)]
        },
    };
    assert(offsets_of(res) =~= kicks_spec(p, from as int, to as int));
    res
}

/// What a lock scores as a T-spin.
#[derive(Clone, Copy, PartialEq, Eq, Debug, Structural)]
pub enum Spin {
    NoSpin,
    Mini,
    Full,
}

/// Base points of a lock that clears `lines` rows, before the level multiplier.
pub open spec fn points_spec(spin: Spin, lines: int) -> int {
    match spin {
        Spin::NoSpin => if lines <= 0 {
            0
        } else if lines == 1 {
            100
        } else if lines == 2 {
            300
        } else if lines == 3 {
            500
        } else {
            800
        },
        Spin::Full => if lines <= 0 {
            400
        } else if lines == 1 {
            800
        } else if lines == 2 {
            1200
        } else {
            1600
        },
        Spin::Mini => if lines <= 0 {
            100
        } else if lines == 1 {
            200
        } else {
            400
        },
    }
}

/// Base points of a lock that clears `lines` rows, before the level multiplier.
pub fn line_clear_points(spin: Spin, lines: u32) -> (res: u32)
    ensures
        res == points_spec(spin, lines as int),
        res <= 1600,
{
    match spin {
        Spin::NoSpin => match lines {
            0 => 0,
            1 => 100,
            2 => 300,
            3 => 500,
            _ => 800,
        },
        Spin::Full => match lines {
            0 => 400,
            1 => 800,
            2 => 1200,
            _ => 1600,
        },
        Spin::Mini => match lines {
            0 => 100,
            1 => 200,
            _ => 400,
        },
    }
}

/// A line clear that keeps a back-to-back chain going: a Tetris, or a
/// T-spin (full or mini) that clears lines.
pub open spec fn is_difficult(spin: Spin, lines: int) -> bool {
    lines > 0 && (lines >= 4 || spin != Spin::NoSpin)
}

/// What a lock scores: with no line cleared, the T-spin points times the
/// level; with lines, the line points times the level, times one and a half
/// for a difficult clear while a back-to-back chain is running, plus fifty
/// times the level for each clear in the running combo before this one.
pub open spec fn clear_points(spin: Spin, lines: int, level: int, b2b: bool, combo: int) -> int {
    if lines <= 0 {
        points_spec(spin, 0) * level
    } else {
        let base = points_spec(spin, lines) * level;
        (if is_difficult(spin, lines) && b2b {
            base * 3 / 2
        } else {
            base
        }) + 50 * combo * level
    }
}

/// A diagonal neighbour of a T's centre counts as filled: it is off the
/// playfield or holds a block.
pub open spec fn corner_filled(g: Seq<Seq<Option<Piece>>>, r: int, c: int) -> bool {
    !on_board(r, c) || g[r][c] is Some
}

/// The two front corners of a T in rotation `rot` (the side its stem points
/// to), as `(row, col)` offsets from its centre.
pub open spec fn front_corners(rot: int) -> ((int, int), (int, int)) {
    if rot == 0 {
        ((-1, -1), (-1, 1))
    } else if rot == 1 {
        ((-1, 1), (1, 1))
    } else if rot == 2 {
        ((1, -1), (1, 1))
    } else {
        ((-1, -1), (1, -1))
    }
}

/// The two back corners of a T in rotation `rot` (its flat side).
pub open spec fn back_corners(rot: int) -> ((int, int), (int, int)) {
    if rot == 0 {
        ((1, -1), (1, 1))
    } else if rot == 1 {
        ((-1, -1), (1, -1))
    } else if rot == 2 {
        ((-1, -1), (-1, 1))
    } else {
        ((-1, 1), (1, 1))
    }
}

/// Classifies a T locking with its centre at `(cr, cc)` in rotation `rot`:
/// with fewer than three of its four diagonal neighbours filled it is no
/// spin; with three or more it is a full T-spin when both back corners are
/// filled, else a mini.
pub open spec fn t_spin_spec(g: Seq<Seq<Option<Piece>>>, rot: int, cr: int, cc: int) -> Spin {
    let (f1, f2) = front_corners(rot);
    let (b1, b2) = back_corners(rot);
    let f1f = corner_filled(g, cr + f1.0, cc + f1.1);
    let f2f = corner_filled(g, cr + f2.0, cc + f2.1);
    let b1f = corner_filled(g, cr + b1.0, cc + b1.1);
    let b2f = corner_filled(g, cr + b2.0, cc + b2.1);
    let n = (if f1f { 1int } else { 0 }) + (if f2f { 1int } else { 0 }) + (if b1f { 1int } else { 0 })
        + (if b2f { 1int } else { 0 });
    if n < 3 {
        Spin::NoSpin
    } else if b1f && b2f {
        Spin::Full
    } else {
        Spin::Mini
    }
}

} // verus!
