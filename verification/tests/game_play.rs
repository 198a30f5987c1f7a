use srs_tetris::control::{key_for_char, CellView, Key, KeyOutcome};
use srs_tetris::game::{Game, LOCK_DELAY_NS, MAX_LOCK_RESETS};
use srs_tetris::piece::{Active, Piece};
use srs_tetris::rules::{Spin, HEIGHT, WIDTH};

fn game_with(piece: Piece, rot: usize, row: i32, col: i32) -> Game {
    let mut g = Game::new(0);
    g.active = Active { piece, rot, row, col };
    g
}

fn filled(g: &Game) -> usize {
    g.board.iter().map(|row| row.iter().filter(|c| c.is_some()).count()).sum()
}

#[test]
fn new_game_starts_empty() {
    let g = Game::new(1234);
    assert_eq!(filled(&g), 0);
    assert_eq!(g.active.rot, 0);
    assert_eq!((g.active.row, g.active.col), (0, 3));
    assert_eq!((g.score, g.lines, g.level, g.best_score), (0, 0, 1, 1234));
    assert!(g.hold.is_none() && !g.hold_used && !g.game_over && !g.paused);
    assert!(g.lock_timer.is_none());
}

#[test]
fn hard_drop_scores_two_per_row() {
    let mut g = game_with(Piece::I, 0, 0, 3);
    g.hard_drop(0);
    assert_eq!(g.score, 36);
    for c in 3..7 {
        assert_eq!(g.board[19][c], Some(Piece::I));
    }
    assert_eq!(filled(&g), 4);
    assert_eq!(g.lines, 0);
    assert_eq!((g.active.row, g.active.col, g.active.rot), (0, 3, 0));
}

#[test]
fn single_line_clear_scores_100_times_level() {
    let mut g = game_with(Piece::I, 0, 0, 3);
    for c in [0usize, 1, 2, 7, 8, 9] {
        g.board[19][c] = Some(Piece::O);
    }
    g.board[18][0] = Some(Piece::J);
    g.hard_drop(0);
    assert!(g.clearing.is_some());
    assert_eq!(g.lines, 1);
    assert_eq!(g.score, 36 + 100);
    assert_eq!(filled(&g), 11);
    g.finish_clear(0);
    assert!(g.clearing.is_none());
    assert_eq!(g.lines, 1);
    assert_eq!(g.score, 36 + 100);
    assert_eq!(filled(&g), 1);
    assert_eq!(g.board[19][0], Some(Piece::J));
}

#[test]
fn tetris_clears_four_rows_for_800() {
    let mut g = game_with(Piece::I, 1, 0, -2);
    for r in 16..20 {
        for c in 1..WIDTH {
            g.board[r][c] = Some(Piece::L);
        }
    }
    g.hard_drop(0);
    assert_eq!(g.lines, 4);
    assert_eq!(g.score, 32 + 800);
    g.finish_clear(0);
    assert_eq!(g.lines, 4);
    assert_eq!(g.score, 32 + 800);
    assert!(g.b2b);
    assert_eq!(g.combo, 1);
    assert_eq!(filled(&g), 0);
}

#[test]
fn level_rises_every_ten_lines_and_multiplies_points() {
    let mut g = game_with(Piece::I, 0, 0, 3);
    g.lines = 9;
    g.level = 1;
    for c in [0usize, 1, 2, 7, 8, 9] {
        g.board[19][c] = Some(Piece::O);
    }
    g.hard_drop(0);
    g.finish_clear(0);
    assert_eq!(g.lines, 10);
    assert_eq!(g.level, 2);
    assert_eq!(g.score, 136);

    let mut g = game_with(Piece::I, 0, 0, 3);
    g.lines = 10;
    g.level = 2;
    for c in [0usize, 1, 2, 7, 8, 9] {
        g.board[19][c] = Some(Piece::O);
    }
    g.hard_drop(0);
    g.finish_clear(0);
    assert_eq!(g.score, 36 + 200);
}

#[test]
fn soft_drop_scores_one() {
    let mut g = game_with(Piece::O, 0, 0, 3);
    g.soft_drop(0);
    assert_eq!(g.score, 1);
    assert_eq!(g.active.row, 1);
    let mut g = game_with(Piece::O, 0, 18, 3);
    g.soft_drop(0);
    assert_eq!(g.score, 0);
    assert_eq!(g.active.row, 18);
}

#[test]
fn moves_stop_at_the_walls() {
    let mut g = game_with(Piece::O, 0, 0, 3);
    let mut moves = 0;
    while g.try_move(0, -1, 0) {
        moves += 1;
    }
    assert_eq!(moves, 4);
    assert_eq!(g.active.col, -1);
    let mut moves = 0;
    while g.try_move(0, 1, 0) {
        moves += 1;
    }
    assert_eq!(moves, 8);
    assert_eq!(g.active.col, 7);
}

#[test]
fn failed_move_changes_nothing() {
    let mut g = game_with(Piece::O, 0, 18, 3);
    g.board[17][6] = Some(Piece::Z);
    let before = (g.active, g.score, g.lock_timer, g.lock_resets);
    assert!(!g.try_move(1, 0, 5));
    assert_eq!(before, (g.active, g.score, g.lock_timer, g.lock_resets));
}

#[test]
fn gravity_speeds_up_with_level() {
    let mut g = Game::new(0);
    let expected = [(1u32, 800u64), (2, 740), (5, 560), (12, 140), (13, 80), (14, 80), (100, 80)];
    for (level, ms) in expected {
        g.level = level;
        assert_eq!(g.gravity_ms(), ms);
    }
}

#[test]
fn lock_delay_runs_half_a_second() {
    let mut g = game_with(Piece::O, 0, 18, 3);
    g.after_move(false, 1_000);
    assert_eq!(g.lock_timer, Some(1_000));
    g.check_lock_delay(1_000 + LOCK_DELAY_NS - 1);
    assert_eq!(filled(&g), 0);
    g.check_lock_delay(1_000 + LOCK_DELAY_NS);
    assert_eq!(filled(&g), 4);
    assert_eq!(g.board[19][4], Some(Piece::O));
    assert_eq!((g.active.row, g.active.col), (0, 3));
    assert!(g.lock_timer.is_none());
}

#[test]
fn lock_delay_resets_at_most_fifteen_times() {
    let mut g = game_with(Piece::O, 0, 18, 3);
    g.after_move(false, 0);
    for i in 1..=20u64 {
        let dc = if i % 2 == 0 { 1 } else { -1 };
        assert!(g.try_move(0, dc, i));
    }
    assert_eq!(g.lock_resets, MAX_LOCK_RESETS);
    assert_eq!(g.lock_timer, Some(15));
}

#[test]
fn leaving_the_ground_stops_the_lock_delay() {
    let mut g = game_with(Piece::O, 0, 16, 3);
    g.board[18][4] = Some(Piece::S);
    g.after_move(false, 7);
    assert_eq!(g.lock_timer, Some(7));
    assert!(g.try_move(0, 3, 8));
    assert!(g.lock_timer.is_none());
}

#[test]
fn gravity_tick_falls_or_starts_lock_delay() {
    let mut g = game_with(Piece::O, 0, 17, 3);
    g.gravity_tick(3);
    assert_eq!(g.active.row, 18);
    assert_eq!(g.lock_timer, Some(3));
    g.gravity_tick(9);
    assert_eq!(g.active.row, 18);
    assert_eq!(g.lock_timer, Some(3));
}

#[test]
fn hold_once_per_piece() {
    let mut g = game_with(Piece::T, 0, 0, 3);
    let next = g.bag.peek_n(1)[0];
    g.do_hold(0);
    assert_eq!(g.hold, Some(Piece::T));
    assert_eq!(g.active.piece, next);
    assert!(g.hold_used);
    let snapshot = (g.active, g.hold);
    g.do_hold(0);
    assert_eq!(snapshot, (g.active, g.hold));
    g.hard_drop(0);
    assert!(!g.hold_used);
    let current = g.active.piece;
    g.do_hold(0);
    assert_eq!(g.active.piece, Piece::T);
    assert_eq!(g.hold, Some(current));
}

#[test]
fn ghost_row_is_the_landing_row() {
    let g = game_with(Piece::O, 0, 0, 3);
    assert_eq!(g.ghost_row(), 18);
    let g = game_with(Piece::I, 0, 0, 3);
    assert_eq!(g.ghost_row(), 18);
    let mut g = game_with(Piece::I, 1, 0, 3);
    g.board[10][5] = Some(Piece::T);
    assert_eq!(g.ghost_row(), 6);
}

#[test]
fn spawning_into_blocks_ends_the_game() {
    let mut g = Game::new(0);
    for c in 0..WIDTH {
        g.board[0][c] = Some(Piece::Z);
        g.board[1][c] = Some(Piece::Z);
    }
    g.board[1][0] = None;
    g.spawn_next(0);
    assert!(g.game_over);
}

fn t_slot(g: &mut Game, back_corners: bool, full_rows: bool) {
    g.active = Active { piece: Piece::T, rot: 2, row: 17, col: 3 };
    g.last_rotated = true;
    g.board[19][3] = Some(Piece::J);
    g.board[19][5] = Some(Piece::J);
    g.board[17][3] = Some(Piece::J);
    if back_corners {
        g.board[17][5] = Some(Piece::J);
    }
    if full_rows {
        for c in 0..WIDTH {
            if c < 3 || c > 5 {
                g.board[18][c] = Some(Piece::L);
                g.board[19][c] = Some(Piece::L);
            }
        }
    }
}

#[test]
fn t_spin_without_lines_scores_400() {
    let mut g = Game::new(0);
    t_slot(&mut g, true, false);
    assert_eq!(g.t_spin_kind(), Spin::Full);
    g.lock_piece(0);
    assert_eq!(g.score, 400);
    assert_eq!(g.lines, 0);
}

#[test]
fn t_spin_double_scores_1200() {
    let mut g = Game::new(0);
    t_slot(&mut g, true, true);
    g.lock_piece(0);
    assert_eq!(g.lines, 2);
    assert_eq!(g.score, 1200);
    g.finish_clear(0);
    assert_eq!(g.lines, 2);
    assert_eq!(g.score, 1200);
    assert_eq!(g.board[19][3], Some(Piece::J));
    assert_eq!(g.board[19][5], Some(Piece::J));
    assert_eq!(filled(&g), 2);
}

#[test]
fn t_spin_mini_scores_100() {
    let mut g = Game::new(0);
    t_slot(&mut g, false, false);
    assert_eq!(g.t_spin_kind(), Spin::Mini);
    g.lock_piece(0);
    assert_eq!(g.score, 100);
}

#[test]
fn no_t_spin_without_a_rotation() {
    let mut g = Game::new(0);
    t_slot(&mut g, true, false);
    g.last_rotated = false;
    assert_eq!(g.t_spin_kind(), Spin::NoSpin);
    g.lock_piece(0);
    assert_eq!(g.score, 0);
}

#[test]
fn rotation_uses_wall_kicks() {
    let mut g = game_with(Piece::T, 1, 5, -1);
    assert!(g.try_rotate(1, 0));
    assert_eq!(g.active, Active { piece: Piece::T, rot: 2, row: 5, col: 0 });
    assert!(g.last_rotated);
}

#[test]
fn rotation_fails_when_no_kick_fits() {
    let mut g = game_with(Piece::I, 0, 18, 3);
    for c in 0..WIDTH {
        if !(3..7).contains(&c) {
            g.board[19][c] = Some(Piece::S);
        }
        g.board[18][c] = if (3..7).contains(&c) { None } else { Some(Piece::S) };
        for r in 10..18 {
            g.board[r][c] = Some(Piece::S);
        }
    }
    let before = g.active;
    assert!(!g.try_rotate(1, 0));
    assert_eq!(g.active, before);
}

#[test]
fn turning_there_and_back_restores_the_piece() {
    for p in Piece::all() {
        let mut g = game_with(p, 0, 8, 3);
        let before = g.active;
        assert!(g.try_rotate(1, 0));
        assert!(g.try_rotate(-1, 0));
        assert_eq!(g.active, before);
    }
}

#[test]
fn rotation_state_wraps_around() {
    let mut g = game_with(Piece::T, 0, 8, 3);
    assert!(g.try_rotate(-1, 0));
    assert_eq!(g.active.rot, 3);
    assert!(g.try_rotate(1, 0));
    assert_eq!(g.active.rot, 0);
}

#[test]
fn keys_map_from_characters() {
    assert_eq!(key_for_char('q'), Key::Quit);
    assert_eq!(key_for_char('r'), Key::Restart);
    assert_eq!(key_for_char('p'), Key::Pause);
    assert_eq!(key_for_char('x'), Key::RotateCw);
    assert_eq!(key_for_char('z'), Key::RotateCcw);
    assert_eq!(key_for_char(' '), Key::HardDrop);
    assert_eq!(key_for_char('c'), Key::Hold);
    assert_eq!(key_for_char('k'), Key::Other);
}

#[test]
fn keys_while_paused_are_ignored() {
    let mut g = game_with(Piece::O, 0, 0, 3);
    assert_eq!(g.handle_key(Key::Pause, 0), KeyOutcome::Continue);
    assert!(g.paused);
    assert_eq!(g.handle_key(Key::Left, 0), KeyOutcome::Ignored);
    assert_eq!(g.active.col, 3);
    assert_eq!(g.handle_key(Key::Pause, 0), KeyOutcome::Continue);
    assert!(!g.paused);
    assert_eq!(g.handle_key(Key::Left, 0), KeyOutcome::Continue);
    assert_eq!(g.active.col, 2);
    assert_eq!(g.handle_key(Key::SoftDrop, 0), KeyOutcome::ResetGravityClock);
    assert_eq!(g.score, 1);
    assert_eq!(g.handle_key(Key::Quit, 0), KeyOutcome::Quit);
}

#[test]
fn pause_does_nothing_after_game_over() {
    let mut g = Game::new(0);
    g.game_over = true;
    assert_eq!(g.handle_key(Key::Pause, 0), KeyOutcome::Continue);
    assert!(!g.paused);
    assert_eq!(g.handle_key(Key::HardDrop, 0), KeyOutcome::Ignored);
}

#[test]
fn restart_keeps_the_best_score() {
    let mut g = game_with(Piece::O, 0, 0, 3);
    g.best_score = 900;
    g.score = 50;
    g.board[19][0] = Some(Piece::I);
    assert_eq!(g.handle_key(Key::Restart, 0), KeyOutcome::ResetGravityClock);
    assert_eq!(g.best_score, 900);
    assert_eq!(g.score, 0);
    assert_eq!(filled(&g), 0);
}

#[test]
fn hard_drop_key_locks_the_piece() {
    let mut g = game_with(Piece::O, 0, 0, 3);
    assert!(g.key_is_safe(Key::HardDrop));
    assert_eq!(g.handle_key(Key::HardDrop, 0), KeyOutcome::ResetGravityClock);
    assert_eq!(g.score, 36);
    assert_eq!(filled(&g), 4);
}

#[test]
fn key_safety_sees_a_full_score() {
    let mut g = game_with(Piece::O, 0, 0, 3);
    g.score = u32::MAX;
    assert!(!g.key_is_safe(Key::SoftDrop));
    assert!(!g.key_is_safe(Key::HardDrop));
    assert!(g.key_is_safe(Key::Left));
}

#[test]
fn gravity_acts_when_due() {
    let mut g = game_with(Piece::O, 0, 0, 3);
    assert!(!g.on_timer(799_999_999, 0));
    assert_eq!(g.active.row, 0);
    assert!(g.on_timer(800_000_000, 0));
    assert_eq!(g.active.row, 1);
    g.paused = true;
    assert!(!g.on_timer(2_000_000_000, 0));
    assert_eq!(g.active.row, 1);
}

#[test]
fn timer_locks_a_resting_piece() {
    let mut g = game_with(Piece::O, 0, 18, 3);
    g.after_move(false, 0);
    assert!(!g.on_timer(LOCK_DELAY_NS, LOCK_DELAY_NS));
    assert_eq!(filled(&g), 4);
}

#[test]
fn poll_timeout_waits_for_the_next_event() {
    let mut g = game_with(Piece::O, 0, 0, 3);
    assert_eq!(g.poll_timeout_ns(0, 0), 800_000_000);
    assert_eq!(g.poll_timeout_ns(300_000_000, 0), 500_000_000);
    assert_eq!(g.poll_timeout_ns(900_000_000, 0), 1_000_000);
    g.lock_timer = Some(0);
    assert_eq!(g.poll_timeout_ns(100_000_000, 0), 400_000_000);
    g.paused = true;
    assert_eq!(g.poll_timeout_ns(0, 0), 100_000_000);
}

#[test]
fn cells_show_blocks_piece_and_ghost() {
    let mut g = game_with(Piece::O, 0, 0, 3);
    g.board[19][0] = Some(Piece::Z);
    assert_eq!(g.cell_view(19, 0), CellView::Locked(Piece::Z));
    assert_eq!(g.cell_view(0, 4), CellView::Active(Piece::O));
    assert_eq!(g.cell_view(19, 5), CellView::Shadow(Piece::O));
    assert_eq!(g.cell_view(10, 9), CellView::Empty);
    assert_eq!(g.cell_view(HEIGHT - 1, WIDTH - 1), CellView::Empty);
}

#[test]
fn game_over_records_the_score_once() {
    let mut g = Game::new(100);
    g.score = 400;
    g.game_over = true;
    let saved = g.on_game_over_save(vec![500, 300]);
    assert_eq!(saved, Some(vec![500, 400, 300]));
    assert_eq!(g.best_score, 500);
    assert!(g.score_saved);
    assert_eq!(g.on_game_over_save(vec![1]), None);
    assert_eq!(g.best_score, 500);
}

#[test]
fn game_over_keeps_the_best_ten() {
    let mut g = Game::new(0);
    g.score = 55;
    let stored: Vec<u32> = (1..=10).map(|i| i * 10).collect();
    let saved = g.on_game_over_save(stored).unwrap();
    assert_eq!(saved, vec![100, 90, 80, 70, 60, 55, 50, 40, 30, 20]);
    assert_eq!(g.best_score, 100);
}

fn overlaps(g: &Game) -> bool {
    g.active.cells().iter().any(|&(r, c)| {
        c < 0 || c >= WIDTH as i32 || r >= HEIGHT as i32 || (r >= 0 && g.board[r as usize][c as usize].is_some())
    })
}

fn has_full_row(g: &Game) -> bool {
    g.board.iter().any(|row| row.iter().all(|c| c.is_some()))
}

#[test]
fn random_play_keeps_the_piece_clear_of_blocks() {
    let keys = [Key::Left, Key::Right, Key::SoftDrop, Key::RotateCw, Key::RotateCcw, Key::HardDrop, Key::Hold];
    let mut seed: u64 = 12345;
    let mut g = Game::new(0);
    let mut now: u64 = 0;
    let mut last_tick: u64 = 0;
    for _ in 0..3000 {
        seed = seed.wrapping_mul(6364136223846793005).wrapping_add(1442695040888963407);
        let key = keys[((seed >> 33) % keys.len() as u64) as usize];
        now += 50_000_000;
        if g.game_over {
            g = Game::new(g.best_score);
        }
        assert!(g.key_is_safe(key));
        if g.handle_key(key, now) == KeyOutcome::ResetGravityClock {
            last_tick = now;
        }
        assert!(g.timer_is_safe(now, last_tick));
        if g.on_timer(now, last_tick) {
            last_tick = now;
        }
        if !g.game_over && g.clearing.is_none() {
            assert!(!overlaps(&g));
            assert!(!has_full_row(&g));
            if g.lock_timer.is_some() {
                assert!(g.is_grounded());
            }
        }
        assert_eq!(g.level, 1 + g.lines / 10);
        assert!(g.lock_resets <= MAX_LOCK_RESETS);
    }
}

#[test]
fn hard_drop_lands_where_the_ghost_shows() {
    let mut g = game_with(Piece::L, 1, 0, 4);
    g.board[15][5] = Some(Piece::O);
    let ghost = g.ghost_row();
    let expected: Vec<(i32, i32)> = g.active.cells_with(1, ghost, 4).to_vec();
    g.hard_drop(0);
    for (r, c) in expected {
        assert_eq!(g.board[r as usize][c as usize], Some(Piece::L));
    }
    assert_eq!(g.score, 2 * ghost as u32);
}

#[test]
fn o_piece_turns_in_place() {
    let mut g = game_with(Piece::O, 0, 18, -1);
    let cells = g.active.cells();
    assert!(g.try_rotate(1, 0));
    assert_eq!(g.active.cells(), cells);
    assert!(g.try_rotate(-1, 0));
    assert_eq!(g.active.cells(), cells);
}

#[test]
fn every_shape_has_four_distinct_cells() {
    for p in Piece::all() {
        for r in 0..4usize {
            let s = p.shape(r);
            for i in 0..4 {
                for j in (i + 1)..4 {
                    assert_ne!(s[i], s[j]);
                }
                assert!((0..4).contains(&s[i].0) && (0..4).contains(&s[i].1));
            }
        }
    }
}

#[test]
fn clearing_leaves_no_full_row_and_keeps_order() {
    let mut g = game_with(Piece::I, 1, 0, -2);
    for r in 16..20 {
        for c in 1..WIDTH {
            g.board[r][c] = Some(Piece::L);
        }
    }
    g.board[15][5] = Some(Piece::T);
    g.board[17][1] = None;
    g.board[14][9] = Some(Piece::S);
    g.clear_lines(Spin::NoSpin);
    assert_eq!(g.lines, 0);
    g.hard_drop(0);
    assert!(has_full_row(&g));
    assert_eq!(g.lines, 3);
    g.finish_clear(0);
    assert!(!has_full_row(&g));
    assert_eq!(g.lines, 3);
    assert_eq!(g.board[19][0], Some(Piece::I));
    assert_eq!(g.board[19][1], None);
    assert_eq!(g.board[18][5], Some(Piece::T));
    assert_eq!(g.board[17][9], Some(Piece::S));
}

fn single_setup(g: &mut Game) {
    g.active = Active { piece: Piece::I, rot: 0, row: 0, col: 3 };
    g.last_rotated = false;
    for c in [0usize, 1, 2, 7, 8, 9] {
        g.board[19][c] = Some(Piece::O);
    }
}

fn tetris_setup(g: &mut Game) {
    g.active = Active { piece: Piece::I, rot: 1, row: 0, col: -2 };
    g.last_rotated = false;
    for r in 16..20 {
        for c in 1..WIDTH {
            g.board[r][c] = Some(Piece::L);
        }
    }
}

#[test]
fn back_to_back_tetris_scores_one_and_a_half() {
    let mut g = Game::new(0);
    tetris_setup(&mut g);
    g.hard_drop(0);
    g.finish_clear(0);
    assert_eq!(g.score, 32 + 800);
    // a lock with no clear keeps the chain and ends the combo
    g.active = Active { piece: Piece::O, rot: 0, row: 0, col: 3 };
    g.hard_drop(0);
    assert!(g.b2b);
    assert_eq!(g.combo, 0);
    let before = g.score;
    for r in 0..HEIGHT {
        for c in 0..WIDTH {
            g.board[r][c] = None;
        }
    }
    tetris_setup(&mut g);
    g.hard_drop(0);
    assert_eq!(g.score, before + 32 + 1200);
    g.finish_clear(0);
    assert_eq!(g.score, before + 32 + 1200);
}

#[test]
fn combo_adds_fifty_per_level_per_earlier_clear() {
    let mut g = Game::new(0);
    single_setup(&mut g);
    g.hard_drop(0);
    g.finish_clear(0);
    assert_eq!(g.score, 36 + 100);
    assert_eq!(g.combo, 1);
    single_setup(&mut g);
    g.hard_drop(0);
    assert_eq!(g.score, 2 * 136 + 50);
    g.finish_clear(0);
    assert_eq!(g.score, 2 * 136 + 50);
    assert_eq!(g.combo, 2);
    single_setup(&mut g);
    g.hard_drop(0);
    g.finish_clear(0);
    assert_eq!(g.score, 3 * 136 + 50 + 100);
    // an easy clear ends a back-to-back chain
    assert!(!g.b2b);
}

#[test]
fn easy_clear_breaks_the_back_to_back_chain() {
    let mut g = Game::new(0);
    tetris_setup(&mut g);
    g.hard_drop(0);
    g.finish_clear(0);
    assert!(g.b2b);
    single_setup(&mut g);
    g.hard_drop(0);
    g.finish_clear(0);
    assert!(!g.b2b);
    assert_eq!(g.score, 832 + 36 + 100 + 50);
}

#[test]
fn cleared_rows_flash_for_120_ms() {
    let mut g = Game::new(0);
    single_setup(&mut g);
    assert_eq!(g.handle_key(Key::HardDrop, 1_000), KeyOutcome::ResetGravityClock);
    assert!(g.clearing.is_some());
    assert_eq!(g.cell_view(19, 0), CellView::Flash(Piece::O));
    assert_eq!(g.cell_view(19, 4), CellView::Flash(Piece::I));
    assert_eq!(g.cell_view(0, 4), CellView::Empty);
    assert_eq!(g.poll_timeout_ns(1_000 + 20_000_000, 0), 100_000_000);
    assert_eq!(g.handle_key(Key::Left, 1_000), KeyOutcome::Ignored);
    assert_eq!(g.lines, 1);
    assert_eq!(g.score, 136);
    assert!(!g.on_timer(1_000 + 119_999_999, 0));
    assert!(g.clearing.is_some());
    assert!(g.on_timer(1_000 + 120_000_000, 0));
    assert!(g.clearing.is_none());
    assert_eq!(g.lines, 1);
    assert_eq!(g.score, 136);
    assert_eq!((g.active.row, g.active.col), (0, 3));
}

#[test]
fn a_full_score_still_allows_moves_that_score_nothing() {
    let mut g = game_with(Piece::O, 0, 18, 3);
    g.score = u32::MAX;
    g.clear_lines(Spin::NoSpin);
    assert_eq!(g.score, u32::MAX);
    assert!(g.key_is_safe(Key::HardDrop));
    assert_eq!(g.handle_key(Key::HardDrop, 0), KeyOutcome::ResetGravityClock);
    assert_eq!(g.score, u32::MAX);
    assert_eq!(filled(&g), 4);
    let mut g = game_with(Piece::O, 0, 18, 3);
    g.score = u32::MAX;
    g.after_move(false, 0);
    assert!(g.timer_is_safe(LOCK_DELAY_NS, 0));
    g.on_timer(LOCK_DELAY_NS, LOCK_DELAY_NS);
    assert_eq!(filled(&g), 4);
}

#[test]
fn counters_refuse_a_clear_that_would_overflow() {
    let mut g = Game::new(0);
    single_setup(&mut g);
    g.score = u32::MAX - 10;
    assert!(g.key_is_safe(Key::HardDrop) == false);
    g.score = u32::MAX - 136;
    assert!(g.key_is_safe(Key::HardDrop));
    g.hard_drop(0);
    assert_eq!(g.score, u32::MAX);
    assert!(g.timer_is_safe(200_000_000, 0));
    assert!(g.on_timer(200_000_000, 0));
    assert_eq!(g.score, u32::MAX);
    assert_eq!(g.lines, 1);

    let mut g = game_with(Piece::I, 0, 18, 3);
    for c in [0usize, 1, 2, 7, 8, 9] {
        g.board[19][c] = Some(Piece::O);
    }
    g.score = u32::MAX - 10;
    g.after_move(false, 0);
    assert!(!g.timer_is_safe(LOCK_DELAY_NS, LOCK_DELAY_NS));
    g.score = u32::MAX - 100;
    assert!(g.timer_is_safe(LOCK_DELAY_NS, LOCK_DELAY_NS));
    g.on_timer(LOCK_DELAY_NS, LOCK_DELAY_NS);
    assert_eq!(g.score, u32::MAX);
    assert!(g.clearing.is_some());
}

#[test]
fn clearing_twice_changes_nothing_more() {
    let mut g = Game::new(0);
    for c in 0..WIDTH {
        g.board[19][c] = Some(Piece::Z);
    }
    g.board[18][4] = Some(Piece::T);
    g.clear_lines(Spin::NoSpin);
    assert_eq!((g.score, g.lines, g.level), (100, 1, 1));
    assert_eq!(g.board[19][4], Some(Piece::T));
    let board = g.board;
    g.clear_lines(Spin::NoSpin);
    assert_eq!(g.board, board);
    assert_eq!((g.score, g.lines, g.level), (100, 1, 1));
}

#[test]
fn collapsing_and_scoring_are_separate_steps() {
    let mut g = Game::new(0);
    for c in 0..WIDTH {
        g.board[19][c] = Some(Piece::Z);
        g.board[18][c] = Some(Piece::S);
    }
    g.board[17][0] = Some(Piece::T);
    assert_eq!(g.collapse_rows(), 2);
    assert_eq!(g.board[19][0], Some(Piece::T));
    assert_eq!(filled(&g), 1);
    assert_eq!((g.score, g.lines), (0, 0));
    g.score_rows(Spin::NoSpin, 2);
    assert_eq!((g.score, g.lines, g.combo), (300, 2, 1));
    assert_eq!(filled(&g), 1);
}
