use srs_tetris::bag::Bag;
use srs_tetris::piece::{Active, Piece};
use srs_tetris::rules::{line_clear_points, srs_kicks, Spin};

#[test]
fn all_lists_the_seven_pieces_in_order() {
    assert_eq!(
        Piece::all(),
        [Piece::I, Piece::O, Piece::T, Piece::S, Piece::Z, Piece::J, Piece::L]
    );
}

#[test]
fn t_shape_in_each_rotation() {
    assert_eq!(Piece::T.shape(0), [(0, 1), (1, 0), (1, 1), (1, 2)]);
    assert_eq!(Piece::T.shape(1), [(0, 1), (1, 1), (1, 2), (2, 1)]);
    assert_eq!(Piece::T.shape(2), [(1, 0), (1, 1), (1, 2), (2, 1)]);
    assert_eq!(Piece::T.shape(3), [(0, 1), (1, 0), (1, 1), (2, 1)]);
}

#[test]
fn rotation_state_wraps_every_four() {
    for p in Piece::all() {
        for r in 0..4usize {
            assert_eq!(p.shape(r), p.shape(r + 4));
            assert_eq!(p.shape(r), p.shape(r + 8));
        }
    }
}

#[test]
fn o_piece_is_the_same_in_every_rotation() {
    for r in 0..4usize {
        assert_eq!(Piece::O.shape(r), [(0, 1), (0, 2), (1, 1), (1, 2)]);
    }
}

#[test]
fn i_piece_shapes() {
    assert_eq!(Piece::I.shape(0), [(1, 0), (1, 1), (1, 2), (1, 3)]);
    assert_eq!(Piece::I.shape(1), [(0, 2), (1, 2), (2, 2), (3, 2)]);
}

#[test]
fn cells_with_translates_the_shape() {
    let a = Active { piece: Piece::L, rot: 0, row: 5, col: -2 };
    assert_eq!(a.cells_with(0, 5, -2), [(5, 0), (6, -2), (6, -1), (6, 0)]);
    assert_eq!(a.cells(), a.cells_with(0, 5, -2));
    assert_eq!(a.cells_with(1, 0, 0), [(0, 1), (1, 1), (2, 1), (2, 2)]);
}

#[test]
fn srs_kicks_follow_the_tables() {
    assert_eq!(srs_kicks(Piece::T, 0, 1), [(0, 0), (0, -1), (-1, -1), (2, 0), (2, -1)]);
    assert_eq!(srs_kicks(Piece::J, 3, 0), [(0, 0), (0, -1), (1, -1), (-2, 0), (-2, -1)]);
    assert_eq!(srs_kicks(Piece::I, 0, 1), [(0, 0), (0, -2), (0, 1), (1, -2), (-2, 1)]);
    assert_eq!(srs_kicks(Piece::O, 0, 1), [(0, 0); 5]);
    assert_eq!(srs_kicks(Piece::S, 0, 2), [(0, 0); 5]);
}

#[test]
fn scoring_table() {
    assert_eq!(line_clear_points(Spin::NoSpin, 0), 0);
    assert_eq!(line_clear_points(Spin::NoSpin, 1), 100);
    assert_eq!(line_clear_points(Spin::NoSpin, 2), 300);
    assert_eq!(line_clear_points(Spin::NoSpin, 3), 500);
    assert_eq!(line_clear_points(Spin::NoSpin, 4), 800);
    assert_eq!(line_clear_points(Spin::Full, 0), 400);
    assert_eq!(line_clear_points(Spin::Full, 1), 800);
    assert_eq!(line_clear_points(Spin::Full, 2), 1200);
    assert_eq!(line_clear_points(Spin::Full, 3), 1600);
    assert_eq!(line_clear_points(Spin::Mini, 0), 100);
    assert_eq!(line_clear_points(Spin::Mini, 1), 200);
    assert_eq!(line_clear_points(Spin::Mini, 2), 400);
}

fn sorted(mut v: Vec<Piece>) -> Vec<Piece> {
    v.sort_by_key(|p| Piece::all().iter().position(|q| q == p).unwrap());
    v
}

#[test]
fn a_new_bag_holds_each_piece_once() {
    let mut bag = Bag::new();
    let seven = bag.peek_n(7);
    assert_eq!(sorted(seven), Piece::all().to_vec());
}

#[test]
fn every_block_of_seven_dealt_is_a_full_bag() {
    let mut bag = Bag::new();
    let mut dealt = Vec::new();
    for _ in 0..70 {
        dealt.push(bag.next());
    }
    for block in dealt.chunks(7) {
        assert_eq!(sorted(block.to_vec()), Piece::all().to_vec());
    }
}

#[test]
fn peeked_pieces_are_dealt_in_order() {
    let mut bag = Bag::new();
    bag.next();
    bag.next();
    let preview = bag.peek_n(12);
    assert_eq!(preview.len(), 12);
    let mut dealt = Vec::new();
    for _ in 0..12 {
        dealt.push(bag.next());
    }
    assert_eq!(preview, dealt);
}

#[test]
fn peek_does_not_deal() {
    let mut bag = Bag::new();
    let a = bag.peek_n(5);
    let b = bag.peek_n(5);
    assert_eq!(a, b);
    assert_eq!(bag.next(), a[0]);
}

#[test]
fn ensure_refills_whole_bags() {
    let mut bag = Bag::new();
    bag.ensure(8);
    let q = bag.peek_n(14);
    assert_eq!(sorted(q[7..14].to_vec()), Piece::all().to_vec());
}

#[test]
fn refill_appends_one_bag() {
    let mut bag = Bag::new();
    bag.refill();
    let q = bag.peek_n(14);
    assert_eq!(sorted(q[..7].to_vec()), Piece::all().to_vec());
    assert_eq!(sorted(q[7..].to_vec()), Piece::all().to_vec());
}

#[test]
fn bags_are_shuffled() {
    let canonical = Piece::all().to_vec();
    let mut all_canonical = true;
    for _ in 0..30 {
        let mut bag = Bag::new();
        if bag.peek_n(7) != canonical {
            all_canonical = false;
        }
    }
    assert!(!all_canonical);
}

#[test]
fn preview_shows_the_top_two_rows_of_the_spawn_shape() {
    assert_eq!(Piece::I.preview_cells(), vec![(1, 0), (1, 1), (1, 2), (1, 3)]);
    assert_eq!(Piece::T.preview_cells(), vec![(0, 1), (1, 0), (1, 1), (1, 2)]);
    for p in Piece::all() {
        assert_eq!(p.preview_cells().len(), 4);
    }
}
