use rustix_runtime::tetris::{Cell, Piece, TetrisGame, TetrisKey, TetrominoType, BOARD_WIDTH, VISIBLE_HEIGHT};

fn piece(kind: TetrominoType, x: i32, y: i32, rotation: usize) -> Piece {
    Piece { kind, x, y, rotation }
}

fn queue_of(game: &TetrisGame) -> Vec<TetrominoType> {
    game.queue.iter().copied().collect()
}

fn filled_count(game: &TetrisGame) -> usize {
    let mut n = 0;
    for row in game.board.iter() {
        for c in row.iter() {
            if *c != Cell::Empty {
                n += 1;
            }
        }
    }
    n
}

#[test]
fn new_game_starts_with_first_bag_piece_at_spawn() {
    let game = TetrisGame::new();
    assert_eq!(game.active_piece, Some(piece(TetrominoType::T, 4, 19, 0)));
    assert_eq!(
        queue_of(&game),
        vec![
            TetrominoType::O,
            TetrominoType::Z,
            TetrominoType::J,
            TetrominoType::I,
            TetrominoType::L,
            TetrominoType::S
        ]
    );
    assert_eq!(game.score, 0);
    assert_eq!(game.lines_cleared, 0);
    assert_eq!(game.level, 1);
    assert_eq!(game.hold_piece, None);
    assert!(!game.game_over);
    assert!(!game.paused);
    assert_eq!(filled_count(&game), 0);
    assert!(game.timer_resets.fall && game.timer_resets.lock_delay);
}

#[test]
fn first_bag_holds_each_kind_once() {
    let game = TetrisGame::new();
    let mut kinds = queue_of(&game);
    kinds.push(game.active_piece.unwrap().kind);
    let all = [
        TetrominoType::I,
        TetrominoType::O,
        TetrominoType::T,
        TetrominoType::S,
        TetrominoType::Z,
        TetrominoType::J,
        TetrominoType::L,
    ];
    assert_eq!(kinds.len(), 7);
    for k in all.iter() {
        assert_eq!(kinds.iter().filter(|x| *x == k).count(), 1);
    }
}

#[test]
fn reset_restores_a_fresh_game() {
    let mut game = TetrisGame::new();
    game.hard_drop();
    game.score = 500;
    game.reset();
    assert_eq!(game.active_piece, Some(piece(TetrominoType::T, 4, 19, 0)));
    assert_eq!(game.score, 0);
    assert_eq!(filled_count(&game), 0);
    assert_eq!(queue_of(&game).len(), 6);
}

#[test]
fn piece_colors_and_shapes() {
    assert_eq!(TetrominoType::I.color(), [0, 255, 255]);
    assert_eq!(TetrominoType::L.color(), [255, 165, 0]);
    assert_eq!(TetrominoType::T.color(), [128, 0, 128]);
    assert_eq!(TetrominoType::I.blocks(), [(-1, 0), (0, 0), (1, 0), (2, 0)]);
    assert_eq!(TetrominoType::O.blocks(), [(0, 0), (1, 0), (0, 1), (1, 1)]);
    assert_eq!(Cell::default(), Cell::Empty);
    assert_eq!(Piece::new(TetrominoType::S, 3, 7), piece(TetrominoType::S, 3, 7, 0));
}

#[test]
fn absolute_blocks_follow_rotation() {
    assert_eq!(piece(TetrominoType::T, 4, 19, 0).absolute_blocks(), [(3, 19), (4, 19), (5, 19), (4, 20)]);
    assert_eq!(piece(TetrominoType::T, 4, 19, 1).absolute_blocks(), [(4, 20), (4, 19), (4, 18), (5, 19)]);
    // one clockwise turn, with y pointing up, maps (x, y) to (y, -x)
    assert_eq!(piece(TetrominoType::T, 0, 0, 1).absolute_blocks(), [(0, 1), (0, 0), (0, -1), (1, 0)]);
    assert_eq!(piece(TetrominoType::T, 0, 0, 3).absolute_blocks(), [(0, -1), (0, 0), (0, 1), (-1, 0)]);
    assert_eq!(piece(TetrominoType::T, 4, 19, 2).absolute_blocks(), [(5, 19), (4, 19), (3, 19), (4, 18)]);
    // four quarter turns come back to the spawn orientation
    assert_eq!(
        piece(TetrominoType::J, 2, 2, 4).absolute_blocks(),
        piece(TetrominoType::J, 2, 2, 0).absolute_blocks()
    );
}

#[test]
fn moving_stops_at_the_walls() {
    let mut game = TetrisGame::new();
    let mut moves = 0;
    while game.can_move(-1, 0) && game.try_move(-1, 0) {
        moves += 1;
    }
    assert_eq!(moves, 3);
    assert_eq!(game.active_piece.unwrap().x, 1);
    let mut moves = 0;
    while game.can_move(1, 0) && game.try_move(1, 0) {
        moves += 1;
    }
    assert_eq!(moves, 7);
    assert_eq!(game.active_piece.unwrap().x, 8);
}

#[test]
fn validity_checks_walls_floor_and_blocks() {
    let mut game = TetrisGame::new();
    assert!(game.is_valid_position(&piece(TetrominoType::T, 1, 0, 0)));
    assert!(!game.is_valid_position(&piece(TetrominoType::T, 0, 5, 0)));
    assert!(!game.is_valid_position(&piece(TetrominoType::T, 4, -1, 0)));
    // above the visible board is allowed
    assert!(game.is_valid_position(&piece(TetrominoType::I, 4, 25, 0)));
    game.board[3][4] = Cell::Filled(TetrominoType::Z);
    assert!(!game.is_valid_position(&piece(TetrominoType::T, 4, 3, 0)));
    assert!(game.is_on_ground(&piece(TetrominoType::T, 4, 4, 0)));
    assert!(!game.is_on_ground(&piece(TetrominoType::T, 4, 5, 0)));
}

#[test]
fn ghost_row_is_where_hard_drop_lands() {
    let mut game = TetrisGame::new();
    assert_eq!(game.ghost_y(), Some(0));
    game.board[5][4] = Cell::Filled(TetrominoType::L);
    assert_eq!(game.ghost_y(), Some(6));
    assert!(game.can_hard_drop());
    game.hard_drop();
    assert_eq!(game.board[6][3], Cell::Filled(TetrominoType::T));
    assert_eq!(game.board[6][4], Cell::Filled(TetrominoType::T));
    assert_eq!(game.board[6][5], Cell::Filled(TetrominoType::T));
    assert_eq!(game.board[7][4], Cell::Filled(TetrominoType::T));
    assert_eq!(filled_count(&game), 5);
}

#[test]
fn hard_drop_on_empty_board_locks_at_the_floor_and_spawns_next() {
    let mut game = TetrisGame::new();
    game.hard_drop();
    assert_eq!(game.board[0][3], Cell::Filled(TetrominoType::T));
    assert_eq!(game.board[0][4], Cell::Filled(TetrominoType::T));
    assert_eq!(game.board[0][5], Cell::Filled(TetrominoType::T));
    assert_eq!(game.board[1][4], Cell::Filled(TetrominoType::T));
    assert_eq!(filled_count(&game), 4);
    assert_eq!(game.active_piece, Some(piece(TetrominoType::O, 4, 19, 0)));
    // the queue had six pieces, so a second bag was appended before taking O
    assert_eq!(queue_of(&game).len(), 12);
    assert_eq!(game.score, 0);
    assert_eq!(game.lines_cleared, 0);
}

#[test]
fn i_piece_spawns_one_row_lower() {
    let mut game = TetrisGame::new();
    game.queue.clear();
    game.queue.extend([TetrominoType::I; 7]);
    game.spawn_piece();
    assert_eq!(game.active_piece, Some(piece(TetrominoType::I, 4, 18, 0)));
}

#[test]
fn clearing_one_line_scores_100() {
    let mut game = TetrisGame::new();
    for x in 0..BOARD_WIDTH {
        if !(3..=5).contains(&x) {
            game.board[0][x] = Cell::Filled(TetrominoType::I);
        }
    }
    assert!(game.can_hard_drop());
    game.hard_drop();
    assert_eq!(game.lines_cleared, 1);
    assert_eq!(game.score, 100);
    assert_eq!(game.level, 1);
    // the T's top block drops into row 0
    assert_eq!(game.board[0][4], Cell::Filled(TetrominoType::T));
    assert_eq!(filled_count(&game), 1);
}

#[test]
fn clearing_four_lines_scores_800() {
    let mut game = TetrisGame::new();
    for y in 0..4 {
        for x in 1..BOARD_WIDTH {
            game.board[y][x] = Cell::Filled(TetrominoType::O);
        }
    }
    game.active_piece = Some(piece(TetrominoType::I, 0, 10, 1));
    assert_eq!(game.ghost_y(), Some(2));
    assert!(game.can_hard_drop());
    game.hard_drop();
    assert_eq!(game.lines_cleared, 4);
    assert_eq!(game.score, 800);
    assert_eq!(filled_count(&game), 0);
}

#[test]
fn two_and_three_lines_score_300_and_500_times_level() {
    for (rows, points) in [(2usize, 300u32), (3, 500)] {
        let mut game = TetrisGame::new();
        game.level = 3;
        game.lines_cleared = 2;
        for y in 0..rows {
            for x in 1..BOARD_WIDTH {
                game.board[y][x] = Cell::Filled(TetrominoType::O);
            }
        }
        game.active_piece = Some(piece(TetrominoType::I, 0, 10, 1));
        game.hard_drop();
        assert_eq!(game.score, points * 3);
        assert_eq!(game.lines_cleared, 2 + rows as u32);
        assert_eq!(game.level, 1);
    }
}

#[test]
fn tenth_line_raises_the_level() {
    let mut game = TetrisGame::new();
    game.lines_cleared = 9;
    for x in 0..BOARD_WIDTH {
        if !(3..=5).contains(&x) {
            game.board[0][x] = Cell::Filled(TetrominoType::I);
        }
    }
    game.hard_drop();
    assert_eq!(game.lines_cleared, 10);
    assert_eq!(game.score, 100);
    assert_eq!(game.level, 2);
}

#[test]
fn rows_above_a_cleared_row_shift_down_in_order() {
    let mut game = TetrisGame::new();
    for x in 0..BOARD_WIDTH {
        if !(3..=5).contains(&x) {
            game.board[0][x] = Cell::Filled(TetrominoType::I);
        }
    }
    game.board[2][0] = Cell::Filled(TetrominoType::S);
    game.board[3][9] = Cell::Filled(TetrominoType::Z);
    game.hard_drop();
    assert_eq!(game.board[0][4], Cell::Filled(TetrominoType::T));
    assert_eq!(game.board[1][0], Cell::Filled(TetrominoType::S));
    assert_eq!(game.board[2][9], Cell::Filled(TetrominoType::Z));
    assert_eq!(game.board[3][9], Cell::Empty);
    assert_eq!(game.board[VISIBLE_HEIGHT - 1], [Cell::Empty; BOARD_WIDTH]);
}

#[test]
fn rotating_t_clockwise_in_open_space() {
    let mut game = TetrisGame::new();
    assert!(game.can_rotate(1));
    assert!(game.try_rotate(1));
    assert_eq!(game.active_piece, Some(piece(TetrominoType::T, 4, 19, 1)));
    assert!(game.try_rotate(-1));
    assert_eq!(game.active_piece, Some(piece(TetrominoType::T, 4, 19, 0)));
    assert!(game.try_rotate(-1));
    assert_eq!(game.active_piece.unwrap().rotation, 3);
}

#[test]
fn o_piece_does_not_rotate() {
    let mut game = TetrisGame::new();
    game.active_piece = Some(piece(TetrominoType::O, 4, 10, 0));
    assert!(!game.try_rotate(1));
    assert_eq!(game.active_piece, Some(piece(TetrominoType::O, 4, 10, 0)));
}

#[test]
fn i_piece_kicks_off_the_left_wall() {
    let mut game = TetrisGame::new();
    game.active_piece = Some(piece(TetrominoType::I, 0, 10, 1));
    assert!(game.try_rotate(1));
    assert_eq!(game.active_piece, Some(piece(TetrominoType::I, 2, 10, 2)));
}

#[test]
fn blocked_rotation_leaves_the_piece() {
    let mut game = TetrisGame::new();
    for y in 0..VISIBLE_HEIGHT {
        for x in 0..BOARD_WIDTH {
            game.board[y][x] = Cell::Filled(TetrominoType::Z);
        }
    }
    for x in 0..BOARD_WIDTH {
        game.board[5][x] = Cell::Empty;
    }
    game.board[5][0] = Cell::Filled(TetrominoType::Z);
    game.active_piece = Some(piece(TetrominoType::I, 5, 5, 0));
    assert!(!game.try_rotate(1));
    assert_eq!(game.active_piece, Some(piece(TetrominoType::I, 5, 5, 0)));
}

#[test]
fn landing_by_rotation_restarts_lock_delay_at_most_fifteen_times() {
    let mut game = TetrisGame::new();
    game.active_piece = Some(piece(TetrominoType::T, 4, 0, 0));
    game.timer_resets.lock_delay = false;
    assert!(game.try_rotate(1));
    // rotation 1 at row 0 would reach row -1, so the third kick (-1, +1) lifts it
    assert_eq!(game.active_piece, Some(piece(TetrominoType::T, 3, 1, 1)));
    assert!(game.timer_resets.lock_delay);
    assert_eq!(game.lock_resets, 1);
    game.lock_resets = 15;
    game.timer_resets.lock_delay = false;
    let before = game.lock_resets;
    assert!(game.try_rotate(1));
    assert_eq!(game.active_piece, Some(piece(TetrominoType::T, 3, 1, 2)));
    assert_eq!(game.lock_resets, before);
    assert!(!game.timer_resets.lock_delay);
}

#[test]
fn hold_stores_then_swaps() {
    let mut game = TetrisGame::new();
    game.hold();
    assert_eq!(game.hold_piece, Some(TetrominoType::T));
    assert_eq!(game.active_piece, Some(piece(TetrominoType::O, 4, 19, 0)));
    game.hold();
    assert_eq!(game.hold_piece, Some(TetrominoType::O));
    assert_eq!(game.active_piece, Some(piece(TetrominoType::T, 4, 19, 0)));
}

#[test]
fn blocked_spawn_ends_the_game() {
    let mut game = TetrisGame::new();
    game.board[19][4] = Cell::Filled(TetrominoType::J);
    game.spawn_piece();
    assert!(game.game_over);
}

#[test]
fn keys_move_rotate_drop_and_hold() {
    let mut game = TetrisGame::new();
    game.on_key(TetrisKey::Left, true);
    assert_eq!(game.active_piece.unwrap().x, 3);
    assert_eq!(game.das_direction, -1);
    assert!(game.timer_resets.das);
    game.on_key(TetrisKey::Left, false);
    assert_eq!(game.das_direction, 0);
    game.on_key(TetrisKey::Right, true);
    assert_eq!(game.active_piece.unwrap().x, 4);
    assert_eq!(game.das_direction, 1);
    game.on_key(TetrisKey::Down, true);
    assert_eq!(game.active_piece.unwrap().y, 18);
    assert!(game.timer_resets.soft_drop);
    game.on_key(TetrisKey::Up, true);
    assert_eq!(game.active_piece.unwrap().rotation, 1);
    game.on_key(TetrisKey::Z, true);
    assert_eq!(game.active_piece.unwrap().rotation, 0);
    game.on_key(TetrisKey::X, true);
    assert_eq!(game.active_piece.unwrap().rotation, 1);
    game.on_key(TetrisKey::C, true);
    assert_eq!(game.hold_piece, Some(TetrominoType::T));
    assert!(game.can_handle_key(TetrisKey::Space, true));
    game.on_key(TetrisKey::Space, true);
    assert_eq!(filled_count(&game), 4);
    let before = game.active_piece;
    game.on_key(TetrisKey::Other, true);
    assert_eq!(game.active_piece, before);
}

#[test]
fn paused_or_finished_games_ignore_keys() {
    let mut game = TetrisGame::new();
    game.paused = true;
    game.on_key(TetrisKey::Left, true);
    game.on_key(TetrisKey::Space, true);
    assert_eq!(game.active_piece, Some(piece(TetrominoType::T, 4, 19, 0)));
    assert_eq!(filled_count(&game), 0);
    game.paused = false;
    game.game_over = true;
    game.hold();
    assert_eq!(game.hold_piece, None);
}

#[test]
fn gravity_steps_down_then_locks() {
    let mut game = TetrisGame::new();
    assert!(game.can_fall_step());
    assert!(game.fall_step());
    assert_eq!(game.active_piece.unwrap().y, 18);
    let mut steps = 1;
    while game.fall_step() {
        steps += 1;
    }
    assert_eq!(steps, 19);
    assert_eq!(filled_count(&game), 4);
    assert_eq!(game.active_piece, Some(piece(TetrominoType::O, 4, 19, 0)));
}

#[test]
fn auto_shift_repeats_or_runs_to_the_wall() {
    let mut game = TetrisGame::new();
    game.das_direction = 1;
    assert!(game.can_auto_shift());
    game.auto_shift(Some(2));
    assert_eq!(game.active_piece.unwrap().x, 6);
    game.auto_shift(None);
    assert_eq!(game.active_piece.unwrap().x, 8);
    game.auto_shift(Some(3));
    assert_eq!(game.active_piece.unwrap().x, 8);
    game.das_direction = 0;
    game.auto_shift(None);
    assert_eq!(game.active_piece.unwrap().x, 8);
}

#[test]
fn limits_report_integer_overflow() {
    let mut game = TetrisGame::new();
    game.active_piece = Some(piece(TetrominoType::T, i32::MAX - 1, 5, 0));
    assert!(!game.can_move(1, 0));
    assert!(game.can_move(-1, 0));
    assert!(!game.can_handle_key(TetrisKey::Right, true));
    assert!(game.can_handle_key(TetrisKey::Right, false));
    game.active_piece = Some(piece(TetrominoType::T, 4, i32::MIN, 0));
    assert!(!game.can_move(0, -1));
    assert!(!game.can_fall_step());
    assert!(!game.can_hard_drop());
}

#[test]
fn limits_report_score_overflow() {
    let mut game = TetrisGame::new();
    for x in 0..BOARD_WIDTH {
        if !(3..=5).contains(&x) {
            game.board[0][x] = Cell::Filled(TetrominoType::I);
        }
    }
    game.score = u32::MAX - 50;
    assert!(!game.can_hard_drop());
    game.score = u32::MAX - 100;
    assert!(game.can_hard_drop());
    game.active_piece = Some(piece(TetrominoType::T, 4, 0, 0));
    game.score = u32::MAX - 50;
    assert!(!game.can_lock());
    game.score = 0;
    assert!(game.can_lock());
}

#[test]
fn fresh_game_passes_every_limit() {
    let game = TetrisGame::new();
    for key in [
        TetrisKey::Left,
        TetrisKey::Right,
        TetrisKey::Down,
        TetrisKey::Up,
        TetrisKey::X,
        TetrisKey::Z,
        TetrisKey::Space,
        TetrisKey::C,
        TetrisKey::ShiftLeft,
        TetrisKey::ShiftRight,
        TetrisKey::Other,
    ] {
        assert!(game.can_handle_key(key, true));
    }
    assert!(game.can_lock());
    assert!(game.can_fall_step());
    assert!(game.can_rotate(1) && game.can_rotate(-1));
}

#[test]
fn board_never_keeps_a_full_row_after_a_drop() {
    let mut game = TetrisGame::new();
    let mut drops = 0;
    while !game.game_over && drops < 200 {
        assert!(game.can_handle_key(TetrisKey::Space, true));
        if drops % 3 == 0 {
            game.on_key(TetrisKey::Left, true);
            game.on_key(TetrisKey::Left, true);
        } else if drops % 3 == 1 {
            game.on_key(TetrisKey::Up, true);
            game.on_key(TetrisKey::Right, true);
            game.on_key(TetrisKey::Right, true);
        }
        game.on_key(TetrisKey::Space, true);
        drops += 1;
        for row in game.board.iter() {
            assert!(row.iter().any(|c| *c == Cell::Empty));
        }
        if let (false, Some(p)) = (game.game_over, game.active_piece) {
            assert!(game.is_valid_position(&p));
        }
    }
    assert!(drops > 0);
}

#[test]
fn piece_block_fit() {
    assert!(piece(TetrominoType::T, 4, 19, 0).blocks_fit());
    assert!(!piece(TetrominoType::T, i32::MAX, 0, 0).blocks_fit());
    assert!(!piece(TetrominoType::I, 0, i32::MIN, 1).blocks_fit());
    assert!(piece(TetrominoType::O, i32::MAX - 1, i32::MAX - 1, 0).blocks_fit());
}
