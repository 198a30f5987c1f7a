//! Tetrominoes, their four rotation states, and placed pieces.

use vstd::prelude::*;

verus! {

/// The seven tetrominoes.
#[derive(Clone, Copy, PartialEq, Eq, Debug, Structural)]
pub enum Piece {
    I,
    O,
    T,
    S,
    Z,
    J,
    L,
}

/// The seven pieces in their canonical order.
pub open spec fn all_pieces() -> Seq<Piece> {
    seq![Piece::I, Piece::O, Piece::T, Piece::S, Piece::Z, Piece::J, Piece::L]
}

/// The four cells `(row, col)` of `p` in rotation state `r` (0 = spawn,
/// 1 = R, 2 = 2, 3 = L), relative to the top-left of its bounding box.
pub open spec fn shape_spec(p: Piece, r: int) -> Seq<(i32, i32)> {
    match p {
        Piece::I => if r == 0 {
            seq![(1i32, 0i32), (1, 1), (1, 2), (1, 3)]
        } else if r == 1 {
            seq![(0i32, 2i32), (1, 2), (2, 2), (3, 2)]
        } else if r == 2 {
            seq![(2i32, 0i32), (2, 1), (2, 2), (2, 3)]
        } else {
            seq![(0i32, 1i32), (1, 1), (2, 1), (3, 1)]
        },
        Piece::O => seq![(0i32, 1i32), (0, 2), (1, 1), (1, 2)],
        Piece::T => if r == 0 {
            seq![(0i32, 1i32), (1, 0), (1, 1), (1, 2)]
        } else if r == 1 {
            seq![(0i32, 1i32), (1, 1), (1, 2), (2, 1)]
        } else if r == 2 {
            seq![(1i32, 0i32), (1, 1), (1, 2), (2, 1)]
        } else {
            seq![(0i32, 1i32), (1, 0), (1, 1), (2, 1)]
        },
        Piece::S => if r == 0 {
            seq![(0i32, 1i32), (0, 2), (1, 0), (1, 1)]
        } else if r == 1 {
            seq![(0i32, 1i32), (1, 1), (1, 2), (2, 2)]
        } else if r == 2 {
            seq![(1i32, 1i32), (1, 2), (2, 0), (2, 1)]
        } else {
            seq![(0i32, 0i32), (1, 0), (1, 1), (2, 1)]
        },
        Piece::Z => if r == 0 {
            seq![(0i32, 0i32), (0, 1), (1, 1), (1, 2)]
        } else if r == 1 {
            seq![(0i32, 2i32), (1, 1), (1, 2), (2, 1)]
        } else if r == 2 {
            seq![(1i32, 0i32), (1, 1), (2, 1), (2, 2)]
        } else {
            seq![(0i32, 1i32), (1, 0), (1, 1), (2, 0)]
        },
        Piece::J => if r == 0 {
            seq![(0i32, 0i32), (1, 0), (1, 1), (1, 2)]
        } else if r == 1 {
            seq![(0i32, 1i32), (0, 2), (1, 1), (2, 1)]
        } else if r == 2 {
            seq![(1i32, 0i32), (1, 1), (1, 2), (2, 2)]
        } else {
            seq![(0i32, 1i32), (1, 1), (2, 0), (2, 1)]
        },
        Piece::L => if r == 0 {
            seq![(0i32, 2i32), (1, 0), (1, 1), (1, 2)]
        } else if r == 1 {
            seq![(0i32, 1i32), (1, 1), (2, 1), (2, 2)]
        } else if r == 2 {
            seq![(1i32, 0i32), (1, 1), (1, 2), (2, 0)]
        } else {
            seq![(0i32, 0i32), (0, 1), (1, 1), (2, 1)]
        },
    }
}

/// The cells of `p` in rotation state `r` with its bounding box at `(row, col)`.
pub open spec fn placed(p: Piece, r: int, row: int, col: int) -> Seq<(int, int)> {
    Seq::new(4, |i: int| (shape_spec(p, r)[i].0 + row, shape_spec(p, r)[i].1 + col))
}

/// The cells held in an array, as mathematical pairs.
pub open spec fn cells_of(a: [(i32, i32); 4]) -> Seq<(int, int)> {
    Seq::new(4, |i: int| (a@[i].0 as int, a@[i].1 as int))
}

/// The coordinates `(row, col)` can be placed without `i32` overflow.
pub open spec fn placeable(row: int, col: int) -> bool {
    i32::MIN <= row && row + 3 <= i32::MAX && i32::MIN <= col && col + 3 <= i32::MAX
}

impl Piece {
    /// All seven pieces, in the order I, O, T, S, Z, J, L.
    pub fn all() -> (res: [Piece; 7])
        ensures
            res@ == all_pieces(),
    {
        let res = [Piece::I, Piece::O, Piece::T, Piece::S, Piece::Z, Piece::J, Piece::L];
        assert(res@ =~= all_pieces());
        res
    }

    /// The four cells of this piece in rotation state `rot` (taken modulo 4).
    pub fn shape(self, rot: usize) -> (res: [(i32, i32); 4])
        ensures
            res@ == shape_spec(self, rot as int % 4),
    {
        let r = rot & 3;
        assert(r == rot % 4) by (bit_vector)
            requires
                r == rot & 3,
        ;
        let res = match self {
            Piece::I => if r == 0 {
                [(1, 0), (1, 1), (1, 2), (1, 3)]
            } else if r == 1 {
                [(0, 2), (1, 2), (2, 2), (3, 2)]
            } else if r == 2 {
                [(2, 0), (2, 1), (2, 2), (2, 3)]
            } else {
                [(0, 1), (1, 1), (2, 1), (3, 1)]
            },
            Piece::O => [(0, 1), (0, 2), (1, 1), (1, 2)],
            Piece::T => if r == 0 {
                [(0, 1), (1, 0), (1, 1), (1, 2)]
            } else if r == 1 {
                [(0, 1), (1, 1), (1, 2), (2, 1)]
            } else if r == 2 {
                [(1, 0), (1, 1), (1, 2), (2, 1)]
            } else {
                [(0, 1), (1, 0), (1, 1), (2, 1)]
            },
            Piece::S => if r == 0 {
                [(0, 1), (0, 2), (1, 0), (1, 1)]
            } else if r == 1 {
                [(0, 1), (1, 1), (1, 2), (2, 2)]
            } else if r == 2 {
                [(1, 1), (1, 2), (2, 0), (2, 1)]
            } else {
                [(0, 0), (1, 0), (1, 1), (2, 1)]
            },
            Piece::Z => if r == 0 {
                [(0, 0), (0, 1), (1, 1), (1, 2)]
            } else if r == 1 {
                [(0, 2), (1, 1), (1, 2), (2, 1)]
            } else if r == 2 {
                [(1, 0), (1, 1), (2, 1), (2, 2)]
            } else {
                [(0, 1), (1, 0), (1, 1), (2, 0)]
            },
            Piece::J => if r == 0 {
                [(0, 0), (1, 0), (1, 1), (1, 2)]
            } else if r == 1 {
                [(0, 1), (0, 2), (1, 1), (2, 1)]
            } else if r == 2 {
                [(1, 0), (1, 1), (1, 2), (2, 2)]
            } else {
                [(0, 1), (1, 1), (2, 0), (2, 1)]
            },
            Piece::L => if r == 0 {
                [(0, 2), (1, 0), (1, 1), (1, 2)]
            } else if r == 1 {
                [(0, 1), (1, 1), (2, 1), (2, 2)]
            } else if r == 2 {
                [(1, 0), (1, 1), (1, 2), (2, 0)]
            } else {
                [(0, 0), (0, 1), (1, 1), (2, 1)]
            },
        };
        assert(res@ =~= shape_spec(self, rot as int % 4));
        res
    }
}

impl Piece {
    /// The cells of the spawn shape that a two-row preview shows: those in
    /// rows 0 and 1, in shape order.
    pub fn preview_cells(self) -> (res: Vec<(i32, i32)>)
        ensures
            res@ == shape_spec(self, 0).filter(|cell: (i32, i32)| 0 <= cell.0 < 2 && cell.1 >= 0),
    {
        let s = self.shape(0);
        let ghost sp = shape_spec(self, 0);
        let ghost keep = |cell: (i32, i32)| 0 <= cell.0 < 2 && cell.1 >= 0;
        let mut res: Vec<(i32, i32)> = Vec::new();
        let mut i: usize = 0;
        assert(sp.take(0) =~= Seq::<(i32, i32)>::empty());
        while i < 4
            invariant
                0 <= i <= 4,
                s@ == sp,
                sp == shape_spec(self, 0),
                keep == (|cell: (i32, i32)| 0 <= cell.0 < 2 && cell.1 >= 0),
                res@ == sp.take(i as int).filter(keep),
            decreases 4 - i,
        {
            let (r, c) = s[i];
            if 0 <= r && r < 2 && c >= 0 {
                res.push((r, c));
            }
            proof {
                let t = sp.take(i + 1);
                assert(t.drop_last() =~= sp.take(i as int));
                assert(t.last() == (r, c));
                reveal(Seq::filter);
                assert(t.filter(keep) == if keep((r, c)) {
                    sp.take(i as int).filter(keep).push((r, c))
                } else {
                    sp.take(i as int).filter(keep)
                });
            }
            i = i + 1;
        }
        assert(sp.take(4) =~= sp);
        res
    }
}

/// A piece in play: which piece, its rotation state and the position of its
/// bounding box (row grows downwards, col grows rightwards).
#[derive(Clone, Copy, PartialEq, Eq, Debug, Structural)]
pub struct Active {
    pub piece: Piece,
    pub rot: usize,
    pub row: i32,
    pub col: i32,
}

impl Active {
    /// The cells this piece covers.
    pub open spec fn cells_spec(&self) -> Seq<(int, int)> {
        placed(self.piece, self.rot as int % 4, self.row as int, self.col as int)
    }

    /// The cells this piece covers.
    pub fn cells(&self) -> (res: [(i32, i32); 4])
        requires
            placeable(self.row as int, self.col as int),
        ensures
            cells_of(res) == self.cells_spec(),
    {
        self.cells_with(self.rot, self.row, self.col)
    }

    /// The cells this piece would cover in rotation `rot` at `(row, col)`.
    pub fn cells_with(&self, rot: usize, row: i32, col: i32) -> (res: [(i32, i32); 4])
        requires
            placeable(row as int, col as int),
        ensures
            cells_of(res) == placed(self.piece, rot as int % 4, row as int, col as int),
    {
        let mut c = self.piece.shape(rot);
        let ghost s = shape_spec(self.piece, rot as int % 4);
        proof {
            lemma_shape_offsets(self.piece, rot as int % 4);
        }
        let mut i: usize = 0;
        while i < 4
            invariant
                0 <= i <= 4,
                s == shape_spec(self.piece, rot as int % 4),
                forall|k: int| 0 <= k < 4 ==> 0 <= #[trigger] s[k].0 <= 3 && 0 <= s[k].1 <= 3,
                placeable(row as int, col as int),
                forall|k: int|
                    0 <= k < i ==> #[trigger] c@[k] == ((s[k].0 + row) as i32, (s[k].1 + col) as i32),
                forall|k: int| i <= k < 4 ==> #[trigger] c@[k] == s[k],
            decreases 4 - i,
        {
            let (r0, c0) = c[i];
            c[i] = (r0 + row, c0 + col);
            i = i + 1;
        }
        assert(cells_of(c) =~= placed(self.piece, rot as int % 4, row as int, col as int));
        c
    }
}

/// `(r, c)` is one of `cells`.
pub fn contains_cell(cells: &[(i32, i32); 4], r: i32, c: i32) -> (res: bool)
    ensures
        res == cells_of(*cells).contains((r as int, c as int)),
{
    let ghost cs = cells_of(*cells);
    let mut i: usize = 0;
    while i < 4
        invariant
            0 <= i <= 4,
            cs == cells_of(*cells),
            forall|j: int| 0 <= j < i ==> #[trigger] cs[j] != (r as int, c as int),
        decreases 4 - i,
    {
        if cells[i].0 == r && cells[i].1 == c {
            assert(cs[i as int] == (r as int, c as int));
            return true;
        }
        i = i + 1;
    }
    false
}

/// Every shape lies inside its 4x4 bounding box.
pub proof fn lemma_shape_offsets(p: Piece, r: int)
    ensures
        shape_spec(p, r).len() == 4,
        forall|k: int|
            0 <= k < 4 ==> 0 <= #[trigger] shape_spec(p, r)[k].0 <= 3 && 0 <= shape_spec(p, r)[k].1
                <= 3,
{
}

} // verus!
