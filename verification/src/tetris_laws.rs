//! What holds of every Tetris game, whatever the player does.
use vstd::prelude::*;
use crate::tetris::{
    bag_swap_index, cells_at, cleared_rows, clear_model, dropped_model, empty_row, fall_step_model,
    first_kick, full_row_count, kick_offsets, kicks_i, kicks_jlstz, new_rotation, hard_drop_model, hold_model, in_i32, initial_bag, is_landing,
    kept_rows, key_model, kick_fits, kick_piece, kick_valid, landing, lemma_kept_len,
    lemma_landing_unique, lemma_shift_fits, lemma_shuffle_len, line_score, lock_model, lock_ok,
    move_model, move_ok, piece_fits, place_model, placed_rows, rotate_model, rotate_ok, row_full,
    shifted, shuffle_steps, spawn_model, spawn_of, spec_bag, valid_piece, Cell, GameModel, Piece,
    TetrisKey, TetrominoType, BOARD_WIDTH, VISIBLE_HEIGHT,
};

verus! {

// ---------------------------------------------------------------- the bag

/// Each of the seven kinds occurs in the sequence.
pub open spec fn has_every_kind(s: Seq<TetrominoType>) -> bool {
    forall|k: TetrominoType| #[trigger] s.contains(k)
}

/// No kind occurs twice in the sequence.
pub open spec fn no_repeats(s: Seq<TetrominoType>) -> bool {
    forall|a: int, b: int| 0 <= a < b < s.len() ==> s[a] != s[b]
}

proof fn lemma_swap_index_range(score: u32, i: int)
    requires
        1 <= i <= 6,
    ensures
        0 <= bag_swap_index(score, i) <= i,
{
}

proof fn lemma_shuffle_permutes(score: u32, n: nat)
    requires
        n <= 6,
    ensures
        shuffle_steps(score, n).len() == 7,
        has_every_kind(shuffle_steps(score, n)),
        no_repeats(shuffle_steps(score, n)),
    decreases n,
{
    lemma_shuffle_len(score, n);
    if n == 0 {
        let s = initial_bag();
        assert forall|k: TetrominoType| #[trigger] s.contains(k) by {
            match k {
                TetrominoType::I => assert(s[0] == k),
                TetrominoType::O => assert(s[1] == k),
                TetrominoType::T => assert(s[2] == k),
                TetrominoType::S => assert(s[3] == k),
                TetrominoType::Z => assert(s[4] == k),
                TetrominoType::J => assert(s[5] == k),
                TetrominoType::L => assert(s[6] == k),
            }
        }
    } else {
        lemma_shuffle_permutes(score, (n - 1) as nat);
        let s = shuffle_steps(score, (n - 1) as nat);
        let i = 7 - n;
        let j = bag_swap_index(score, i);
        lemma_swap_index_range(score, i);
        let t = shuffle_steps(score, n);
        assert(t == s.update(i, s[j]).update(j, s[i]));
        // t is s with slots i and j exchanged
        assert forall|a: int|
            0 <= a < 7 implies #[trigger] t[a] == s[if a == i {
                j
            } else if a == j {
                i
            } else {
                a
            }] by {}
        assert forall|k: TetrominoType| #[trigger] t.contains(k) by {
            assert(s.contains(k));
            let a = choose|a: int| 0 <= a < s.len() && s[a] == k;
            let b = if a == i {
                j
            } else if a == j {
                i
            } else {
                a
            };
            assert(t[b] == k);
        }
        assert forall|a: int, b: int| 0 <= a < b < t.len() implies t[a] != t[b] by {
            let pa = if a == i {
                j
            } else if a == j {
                i
            } else {
                a
            };
            let pb = if b == i {
                j
            } else if b == j {
                i
            } else {
                b
            };
            assert(t[a] == s[pa]);
            assert(t[b] == s[pb]);
            assert(pa != pb);
        }
    }
}

/// Every refill of the queue appends a permutation of the seven kinds: each kind
/// exactly once.
pub proof fn lemma_bag_is_permutation(score: u32)
    ensures
        spec_bag(score).len() == 7,
        has_every_kind(spec_bag(score)),
        no_repeats(spec_bag(score)),
{
    lemma_shuffle_permutes(score, 6);
}

// ---------------------------------------------------------------- clearing

/// A board of twenty rows of ten cells.
pub open spec fn board_shape(rows: Seq<Seq<Cell>>) -> bool {
    &&& rows.len() == VISIBLE_HEIGHT
    &&& forall|y: int| 0 <= y < VISIBLE_HEIGHT ==> #[trigger] rows[y].len() == BOARD_WIDTH
}

/// No row of the board is full.
pub open spec fn no_full_rows(rows: Seq<Seq<Cell>>) -> bool {
    forall|y: int| 0 <= y < rows.len() ==> !row_full(#[trigger] rows[y])
}

proof fn lemma_kept_are_open(rows: Seq<Seq<Cell>>, k: nat)
    requires
        k <= rows.len(),
        forall|y: int| 0 <= y < rows.len() ==> #[trigger] rows[y].len() == BOARD_WIDTH,
    ensures
        forall|y: int|
            0 <= y < kept_rows(rows, k).len() ==> !row_full(#[trigger] kept_rows(rows, k)[y])
                && kept_rows(rows, k)[y].len() == BOARD_WIDTH,
    decreases k,
{
    if k > 0 {
        lemma_kept_are_open(rows, (k - 1) as nat);
        let prev = kept_rows(rows, (k - 1) as nat);
        assert forall|y: int| 0 <= y < kept_rows(rows, k).len() implies !row_full(
            #[trigger] kept_rows(rows, k)[y],
        ) && kept_rows(rows, k)[y].len() == BOARD_WIDTH by {
            if y < prev.len() {
                assert(kept_rows(rows, k)[y] == prev[y]);
            } else {
                assert(kept_rows(rows, k)[y] == rows[k - 1]);
            }
        }
    }
}

proof fn lemma_kept_all(rows: Seq<Seq<Cell>>, k: nat)
    requires
        k <= rows.len(),
        no_full_rows(rows),
    ensures
        kept_rows(rows, k) == rows.take(k as int),
    decreases k,
{
    if k > 0 {
        lemma_kept_all(rows, (k - 1) as nat);
        assert(!row_full(rows[k - 1]));
        assert(rows.take(k as int) =~= rows.take(k - 1).push(rows[k - 1]));
    }
}

/// After clearing, the board still has twenty rows of ten cells and none of them is
/// full; clearing it again changes nothing.
pub proof fn lemma_cleared_board(rows: Seq<Seq<Cell>>)
    requires
        board_shape(rows),
    ensures
        board_shape(cleared_rows(rows)),
        no_full_rows(cleared_rows(rows)),
        full_row_count(cleared_rows(rows)) == 0,
        cleared_rows(cleared_rows(rows)) == cleared_rows(rows),
{
    let kept = kept_rows(rows, VISIBLE_HEIGHT as nat);
    lemma_kept_len(rows, VISIBLE_HEIGHT as nat);
    lemma_kept_are_open(rows, VISIBLE_HEIGHT as nat);
    let c = cleared_rows(rows);
    assert(!row_full(empty_row())) by {
        assert(!(empty_row()[0] is Filled));
    }
    assert forall|y: int| 0 <= y < VISIBLE_HEIGHT implies #[trigger] c[y].len() == BOARD_WIDTH
        && !row_full(c[y]) by {
        if y < kept.len() {
            assert(c[y] == kept[y]);
        } else {
            assert(c[y] == empty_row());
        }
    }
    lemma_kept_all(c, VISIBLE_HEIGHT as nat);
    assert(c.take(VISIBLE_HEIGHT as int) =~= c);
    assert(cleared_rows(c) =~= c);
}

// ---------------------------------------------------------------- the sound state

/// A sound game: the board has its shape and no full row, and while the game runs
/// there is an active piece that lies inside the well, overlaps no block, and has
/// coordinates inside `i32`.
pub open spec fn sound_game(m: GameModel) -> bool {
    &&& board_shape(m.board)
    &&& no_full_rows(m.board)
    &&& !m.game_over ==> (m.active_piece matches Some(p) && valid_piece(m.board, p) && piece_fits(p))
}

proof fn lemma_spawn_fits(kind: TetrominoType, x: int, y: int)
    requires
        -10 <= x <= 10,
        -10 <= y <= 30,
    ensures
        crate::tetris::cells_fit(kind, 0, x, y),
{
    assert forall|i: int| 0 <= i < 4 implies in_i32(#[trigger] cells_at(kind, 0, x, y)[i].0)
        && in_i32(cells_at(kind, 0, x, y)[i].1) by {
        crate::tetris::lemma_cell_offsets(kind, 0, x, y, i);
    }
}

proof fn lemma_spawn_keeps_sound(m: GameModel)
    requires
        board_shape(m.board),
        no_full_rows(m.board),
    ensures
        sound_game(spawn_model(m)),
{
    let q = crate::tetris::refilled_queue(m.queue, m.score);
    lemma_spawn_fits(q[0], 4, 18);
    lemma_spawn_fits(q[0], 4, 19);
}

/// A game that starts with an empty board and a piece at its spawn position is sound.
pub proof fn lemma_fresh_game_sound(m: GameModel)
    requires
        m.board == Seq::new(VISIBLE_HEIGHT as nat, |y: int| empty_row()),
        m.active_piece == Some(spawn_of(spec_bag(0)[0])),
        !m.game_over,
        valid_piece(m.board, spawn_of(spec_bag(0)[0])),
    ensures
        sound_game(m),
{
    assert(!row_full(empty_row())) by {
        assert(!(empty_row()[0] is Filled));
    }
    lemma_spawn_fits(spec_bag(0)[0], 4, 18);
    lemma_spawn_fits(spec_bag(0)[0], 4, 19);
}

/// Moving keeps a game sound: the piece only moves into a free position.
pub proof fn lemma_move_keeps_sound(m: GameModel, dx: int, dy: int)
    requires
        sound_game(m),
        move_ok(m, dx, dy),
    ensures
        sound_game(move_model(m, dx, dy)),
{
}

proof fn lemma_first_kick(rows: Seq<Seq<Cell>>, p: Piece, direction: i32, s: nat)
    requires
        s <= 5,
    ensures
        first_kick(rows, p, direction, s) matches Some(j) ==> {
            &&& s <= j < 5
            &&& kick_valid(rows, p, direction, j as int)
            &&& forall|i: int| s <= i < j ==> !kick_valid(rows, p, direction, i)
        },
    decreases 5 - s,
{
    if s < 5 {
        lemma_first_kick(rows, p, direction, s + 1);
    }
}

/// Rotating keeps a game sound: the piece only turns into a free position.
pub proof fn lemma_rotate_keeps_sound(m: GameModel, direction: i32)
    requires
        sound_game(m),
        rotate_ok(m, direction),
    ensures
        sound_game(rotate_model(m, direction)),
{
    if let Some(p) = m.active_piece {
        if p.kind != TetrominoType::O {
            lemma_first_kick(m.board, p, direction, 0);
            if let Some(j) = first_kick(m.board, p, direction, 0) {
                assert(kick_fits(p, direction, j as int));
                let t = kick_piece(p, direction, j as int);
                assert(valid_piece(m.board, t));
            }
        }
    }
}

/// Locking keeps a game sound: the cleared board has no full row, and the next piece
/// either enters at a free spawn position or the game ends.
pub proof fn lemma_lock_keeps_sound(m: GameModel)
    requires
        sound_game(m),
    ensures
        sound_game(lock_model(m)),
{
    lemma_lock_keeps_sound_any_piece(m);
}

/// Holding keeps a game sound.
pub proof fn lemma_hold_keeps_sound(m: GameModel)
    requires
        sound_game(m),
    ensures
        sound_game(hold_model(m)),
{
    lemma_spawn_fits(TetrominoType::I, 4, 19);
    lemma_spawn_fits(TetrominoType::O, 4, 19);
    lemma_spawn_fits(TetrominoType::T, 4, 19);
    lemma_spawn_fits(TetrominoType::S, 4, 19);
    lemma_spawn_fits(TetrominoType::Z, 4, 19);
    lemma_spawn_fits(TetrominoType::J, 4, 19);
    lemma_spawn_fits(TetrominoType::L, 4, 19);
    if !(m.game_over || m.paused) {
        if let Some(piece) = m.active_piece {
            if m.hold_piece is None {
                lemma_spawn_keeps_sound(
                    GameModel { hold_piece: Some(piece.kind), active_piece: None, ..m },
                );
            }
        }
    }
}

/// Hard-dropping keeps a game sound.
pub proof fn lemma_hard_drop_keeps_sound(m: GameModel)
    requires
        sound_game(m),
    ensures
        sound_game(hard_drop_model(m)),
{
    if !(m.game_over || m.paused) {
        lemma_lock_keeps_sound_any_piece(dropped_model(m));
    }
}

/// Locking yields a sound game from any board of the right shape without full rows,
/// wherever the piece stands.
proof fn lemma_lock_keeps_sound_any_piece(m: GameModel)
    requires
        board_shape(m.board),
        no_full_rows(m.board),
    ensures
        sound_game(lock_model(m)),
{
    let pm = place_model(m);
    assert(board_shape(pm.board));
    lemma_cleared_board(pm.board);
    lemma_spawn_keeps_sound(clear_model(pm));
}

/// Every key event keeps a game sound.
pub proof fn lemma_key_keeps_sound(m: GameModel, key: TetrisKey, pressed: bool)
    requires
        sound_game(m),
        crate::tetris::key_ok(m, key, pressed),
    ensures
        sound_game(key_model(m, key, pressed)),
{
    if !(m.game_over || m.paused) && pressed {
        match key {
            TetrisKey::Left => lemma_move_keeps_sound(m, -1, 0),
            TetrisKey::Right => lemma_move_keeps_sound(m, 1, 0),
            TetrisKey::Down => {
                let m1 = GameModel {
                    timer_resets: crate::tetris::TimerResets { soft_drop: true, ..m.timer_resets },
                    ..m
                };
                lemma_move_keeps_sound(m1, 0, -1);
            },
            TetrisKey::Up | TetrisKey::X => lemma_rotate_keeps_sound(m, 1),
            TetrisKey::Z => lemma_rotate_keeps_sound(m, -1i32),
            TetrisKey::Space => lemma_hard_drop_keeps_sound(m),
            TetrisKey::C | TetrisKey::ShiftLeft | TetrisKey::ShiftRight => lemma_hold_keeps_sound(m),
            TetrisKey::Other => {},
        }
    }
}

/// A gravity step keeps a game sound.
pub proof fn lemma_fall_step_keeps_sound(m: GameModel)
    requires
        sound_game(m),
        crate::tetris::fall_step_ok(m),
    ensures
        sound_game(fall_step_model(m)),
{
    if !(m.game_over || m.paused || m.active_piece is None) {
        lemma_move_keeps_sound(m, 0, -1);
        lemma_lock_keeps_sound(m);
    }
}

/// Auto-shifting a running game keeps it sound, however many shifts are tried.
pub proof fn lemma_shift_keeps_sound(m: GameModel, dir: int, n: nat)
    requires
        sound_game(m),
        !m.game_over,
        -1 <= dir <= 1,
    ensures
        sound_game(shifted(m, dir, n)),
        !shifted(m, dir, n).game_over,
    decreases n,
{
    if n > 0 {
        lemma_shift_keeps_sound(m, dir, (n - 1) as nat);
        let s = shifted(m, dir, (n - 1) as nat);
        let p = s.active_piece.unwrap();
        lemma_shift_fits(s.board, p, dir);
        lemma_move_keeps_sound(s, dir, 0);
    }
}

/// In a sound running game the piece can always be shifted one column or stepped
/// one row down without leaving `i32`: the arrow keys and gravity never overflow.
pub proof fn lemma_sound_moves_fit(m: GameModel)
    requires
        sound_game(m),
        !m.game_over,
    ensures
        move_ok(m, -1, 0),
        move_ok(m, 1, 0),
        move_ok(m, 0, -1),
{
    let p = m.active_piece.unwrap();
    lemma_shift_fits(m.board, p, -1);
    lemma_shift_fits(m.board, p, 1);
    crate::tetris::lemma_fit_down(m.board, p.kind, p.rotation, p.x as int, p.y as int);
}

// ---------------------------------------------------------------- scoring

/// The level is one more than a tenth of the cleared lines.
pub open spec fn level_matches(m: GameModel) -> bool {
    m.level == m.lines_cleared / 10 + 1
}

/// Locking a piece never lowers the score or the line count, adds exactly the
/// points of the rows it clears, and keeps the level in step with the line count.
pub proof fn lemma_lock_scoring(m: GameModel)
    requires
        lock_ok(m),
    ensures
        lock_model(m).score == m.score + if full_row_count(place_model(m).board) > 0 {
            line_score(full_row_count(place_model(m).board)) * m.level
        } else {
            0
        },
        lock_model(m).lines_cleared == m.lines_cleared + full_row_count(place_model(m).board),
        lock_model(m).score >= m.score,
        lock_model(m).lines_cleared >= m.lines_cleared,
        level_matches(m) ==> level_matches(lock_model(m)),
{
    let pm = place_model(m);
    lemma_kept_len(pm.board, VISIBLE_HEIGHT as nat);
    assert(line_score(full_row_count(pm.board)) > 0);
    assert(line_score(full_row_count(pm.board)) * m.level >= 0) by (nonlinear_arith)
        requires
            line_score(full_row_count(pm.board)) > 0,
    ;
}

// ---------------------------------------------------------------- dropping

/// The ghost row is where a hard drop puts the piece: dropping places the piece's
/// blocks at the landing row and then clears full rows.
pub proof fn lemma_hard_drop_lands_at_ghost(m: GameModel, y: int)
    requires
        !(m.game_over || m.paused),
        m.active_piece matches Some(p) && is_landing(m.board, p, y),
    ensures
        hard_drop_model(m).board == cleared_rows(
            placed_rows(m.board, Piece { y: y as i32, ..m.active_piece.unwrap() }),
        ),
{
    let p = m.active_piece.unwrap();
    lemma_landing_unique(m.board, p, y, landing(m.board, p));
    if y == p.y {
        assert(Piece { y: y as i32, ..p } == p);
    }
}

// ---------------------------------------------------------------- wall kicks

/// The SRS kicks of the J, L, S, T and Z pieces. Turning from rotation state
/// `from` to `to`, the game tries, in order: the turn in place; a shift of one
/// column `dx` (right when leaving state 1 or entering state 3, left otherwise);
/// that shift and one row `-dy / 2`; no shift and two rows `dy` (up when entering
/// state 0 or leaving state 2, down otherwise); and the column shift with the two
/// rows.
pub proof fn lemma_jlstz_kicks_follow_srs(p: Piece, direction: i32)
    requires
        p.kind != TetrominoType::I,
        p.rotation < 4,
        direction == 1 || direction == -1,
    ensures
        ({
            let from = p.rotation as int;
            let to = if direction == 1 {
                (from + 1) % 4
            } else {
                (from + 3) % 4
            };
            let dx: int = if from == 1 || to == 3 {
                1
            } else {
                -1
            };
            let dy: int = if from == 2 || to == 0 {
                2
            } else {
                -2
            };
            let k = kick_offsets(p, direction);
            &&& new_rotation(p, direction) == to
            &&& k.len() == 5
            &&& k[0].0 == 0 && k[0].1 == 0
            &&& k[1].0 == dx && k[1].1 == 0
            &&& k[2].0 == dx && k[2].1 == -dy / 2
            &&& k[3].0 == 0 && k[3].1 == dy
            &&& k[4].0 == dx && k[4].1 == dy
        }),
{
}

/// Turning back undoes a turn's kick table: the kicks tried when turning back
/// from the new rotation are those of the turn, negated, for every piece.
pub proof fn lemma_kicks_turning_back_negate(p: Piece, direction: i32, j: int)
    requires
        p.rotation < 4,
        direction == 1 || direction == -1,
        0 <= j < 5,
    ensures
        ({
            let q = Piece { rotation: new_rotation(p, direction), ..p };
            let k = kick_offsets(p, direction);
            let b = kick_offsets(q, -direction as i32);
            k.len() == 5 && b.len() == 5 && b[j].0 == -k[j].0 && b[j].1 == -k[j].1
        }),
{
}

/// Four turns the same way bring every piece's kicks back to where they
/// started: at each test position, the offsets of the four turns sum to zero.
pub proof fn lemma_kicks_cancel_over_a_full_turn(j: int)
    requires
        0 <= j < 5,
    ensures
        kicks_jlstz(0)[j].0 + kicks_jlstz(2)[j].0 + kicks_jlstz(4)[j].0 + kicks_jlstz(6)[j].0 == 0,
        kicks_jlstz(0)[j].1 + kicks_jlstz(2)[j].1 + kicks_jlstz(4)[j].1 + kicks_jlstz(6)[j].1 == 0,
        kicks_i(0)[j].0 + kicks_i(2)[j].0 + kicks_i(4)[j].0 + kicks_i(6)[j].0 == 0,
        kicks_i(0)[j].1 + kicks_i(2)[j].1 + kicks_i(4)[j].1 + kicks_i(6)[j].1 == 0,
{
}

/// A turn whose in-place position is blocked but whose one-column shift is free
/// moves the piece one column: right when a J, L, S, T or Z piece leaves
/// rotation 1 or enters rotation 3, left otherwise; it keeps the row.
pub proof fn lemma_blocked_turn_shifts_one_column(m: GameModel, direction: i32)
    requires
        m.active_piece matches Some(p) && p.kind != TetrominoType::I && p.kind != TetrominoType::O
            && p.rotation < 4 && !kick_valid(m.board, p, direction, 0) && kick_valid(
            m.board,
            p,
            direction,
            1,
        ),
        direction == 1 || direction == -1,
        rotate_ok(m, direction),
    ensures
        ({
            let p = m.active_piece.unwrap();
            let to = new_rotation(p, direction) as int;
            let dx: int = if p.rotation == 1 || to == 3 {
                1
            } else {
                -1
            };
            rotate_model(m, direction).active_piece matches Some(t) && t.kind == p.kind && t.x == p.x
                + dx && t.y == p.y && t.rotation == to
        }),
{
    let p = m.active_piece.unwrap();
    lemma_jlstz_kicks_follow_srs(p, direction);
    assert(first_kick(m.board, p, direction, 1) == Some(1nat));
    assert(forall|i: int| 0 <= i < 1 ==> !kick_valid(m.board, p, direction, i));
    assert(kick_fits(p, direction, 1));
    assert(first_kick(m.board, p, direction, 0) == Some(1nat));
}

/// A turn whose in-place position is free keeps the piece where it is, whatever
/// the piece (but O, which does not turn).
pub proof fn lemma_free_turn_stays_in_place(m: GameModel, direction: i32)
    requires
        m.active_piece matches Some(p) && p.kind != TetrominoType::O && p.rotation < 4 && kick_valid(
            m.board,
            p,
            direction,
            0,
        ),
        direction == 1 || direction == -1,
    ensures
        ({
            let p = m.active_piece.unwrap();
            rotate_model(m, direction).active_piece matches Some(t) && t.kind == p.kind && t.x == p.x
                && t.y == p.y && t.rotation == new_rotation(p, direction)
        }),
{
    let p = m.active_piece.unwrap();
    assert(first_kick(m.board, p, direction, 0) == Some(0nat));
    lemma_first_kick_in_place(p, direction);
}

proof fn lemma_first_kick_in_place(p: Piece, direction: i32)
    requires
        p.rotation < 4,
        direction == 1 || direction == -1,
    ensures
        kick_offsets(p, direction).len() == 5,
        kick_offsets(p, direction)[0] == (0i32, 0i32),
{
}

} // verus!
