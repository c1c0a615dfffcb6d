//! Exact tests of the arithmetic preconditions of the game's operations.
//!
//! Every operation that moves the active piece or adds to the score requires
//! that its coordinates and counters stay inside their integer types. A
//! caller that cannot prove this checks it here first: each test returns
//! exactly the precondition of the operation it guards.
use vstd::prelude::*;
use crate::tetris::{
    board_rows, cells_at, fall_step_ok, shift_ok, piece_fits, cells_fit, dropped_model,
    full_row_count, hard_drop_ok, in_i32, key_ok, kick_fits, kick_offsets, kick_valid, landing,
    lemma_kept_len, lemma_landing_unique, lock_ok, move_ok, new_rotation, place_model, place_piece,
    rem_euclid4, rotate_blocks, rotate_ok, row_is_full, scoring_fits, spec_blocks, wall_kick_i,
    wall_kick_jlstz, kept_rows, Cell, GameModel, Piece, TetrisGame, TetrisKey, TetrominoType,
    BOARD_WIDTH, VISIBLE_HEIGHT,
};

verus! {

fn in_i32_exec(v: i64) -> (r: bool)
    ensures
        r == in_i32(v as int),
{
    i32::MIN as i64 <= v && v <= i32::MAX as i64
}

/// Whether every block of a piece of `kind`, turned `rotation` times, at (x, y)
/// has coordinates inside `i32`.
fn cells_fit_at(kind: TetrominoType, rotation: usize, x: i64, y: i64) -> (r: bool)
    requires
        -0x1_0000_0000 <= x <= 0x1_0000_0000,
        -0x1_0000_0000 <= y <= 0x1_0000_0000,
    ensures
        r == cells_fit(kind, rotation, x as int, y as int),
{
    let base = kind.blocks();
    assert(forall|i: int| 0 <= i < 4 ==> -2 <= #[trigger] base@[i].0 <= 2 && -2 <= base@[i].1 <= 2);
    let rotated = rotate_blocks(&base, rotation);
    let mut i: usize = 0;
    while i < 4
        invariant
            0 <= i <= 4,
            -0x1_0000_0000 <= x <= 0x1_0000_0000,
            -0x1_0000_0000 <= y <= 0x1_0000_0000,
            base@ == spec_blocks(kind),
            forall|j: int|
                #![trigger rotated@[j]]
                0 <= j < 4 ==> (rotated@[j].0 as int, rotated@[j].1 as int) == turned_offset(
                    base@[j],
                    rotation,
                ),
            forall|j: int|
                0 <= j < i ==> in_i32(#[trigger] cells_at(kind, rotation, x as int, y as int)[j].0)
                    && in_i32(cells_at(kind, rotation, x as int, y as int)[j].1),
        decreases 4 - i,
    {
        let cx = rotated[i].0 as i64 + x;
        let cy = rotated[i].1 as i64 + y;
        assert(cells_at(kind, rotation, x as int, y as int)[i as int] == (cx as int, cy as int));
        if !(in_i32_exec(cx) && in_i32_exec(cy)) {
            assert(!cells_fit(kind, rotation, x as int, y as int)) by {
                let k = i as int;
                assert(0 <= k < 4);
                if cells_fit(kind, rotation, x as int, y as int) {
                    assert(in_i32(cells_at(kind, rotation, x as int, y as int)[k].0));
                    assert(in_i32(cells_at(kind, rotation, x as int, y as int)[k].1));
                }
            }
            return false;
        }
        assert(in_i32(cells_at(kind, rotation, x as int, y as int)[i as int].0));
        i = i + 1;
    }
    true
}

/// A block offset turned by `rotation` quarter turns.
spec fn turned_offset(b: (i32, i32), rotation: usize) -> (int, int) {
    crate::tetris::rot_point((b.0 as int, b.1 as int), rotation as nat)
}

/// The number of full rows of a board.
fn count_full_rows(board: &[[Cell; BOARD_WIDTH]; VISIBLE_HEIGHT]) -> (n: usize)
    ensures
        n == full_row_count(board_rows(*board)),
        n <= VISIBLE_HEIGHT,
{
    let ghost rows = board_rows(*board);
    let mut n: usize = 0;
    let mut y: usize = 0;
    while y < VISIBLE_HEIGHT
        invariant
            y <= VISIBLE_HEIGHT,
            rows == board_rows(*board),
            n + kept_rows(rows, y as nat).len() == y,
        decreases VISIBLE_HEIGHT - y,
    {
        proof {
            lemma_kept_len(rows, y as nat);
        }
        assert(board@[y as int]@ == rows[y as int]);
        if row_is_full(&board[y]) {
            n = n + 1;
        }
        y = y + 1;
    }
    proof {
        lemma_kept_len(rows, VISIBLE_HEIGHT as nat);
    }
    n
}

impl Piece {
    /// Whether every block of the piece has coordinates inside `i32`, as
    /// `absolute_blocks` requires.
    pub fn blocks_fit(&self) -> (r: bool)
        ensures
            r == piece_fits(*self),
    {
        cells_fit_at(self.kind, self.rotation, self.x as i64, self.y as i64)
    }
}

impl TetrisGame {
    /// Whether `try_move(dx, dy)` keeps the piece's coordinates inside `i32`.
    pub fn can_move(&self, dx: i32, dy: i32) -> (r: bool)
        ensures
            r == move_ok(self@, dx as int, dy as int),
    {
        match self.active_piece {
            None => true,
            Some(p) => {
                let nx = p.x as i64 + dx as i64;
                let ny = p.y as i64 + dy as i64;
                in_i32_exec(nx) && in_i32_exec(ny) && cells_fit_at(p.kind, p.rotation, nx, ny)
            },
        }
    }

    /// Whether `try_rotate(direction)` keeps every value inside its type.
    pub fn can_rotate(&self, direction: i32) -> (r: bool)
        ensures
            r == rotate_ok(self@, direction),
    {
        let p = match self.active_piece {
            None => return true,
            Some(p) => p,
        };
        let turned = (p.rotation as i32) as i64 + direction as i64;
        if !in_i32_exec(turned) {
            return false;
        }
        if p.kind == TetrominoType::O {
            return true;
        }
        if direction == 1 {
            if p.rotation > usize::MAX / 2 {
                return false;
            }
        } else {
            if p.rotation > (usize::MAX - 7) / 2 {
                return false;
            }
        }
        let new_rot = rem_euclid4(p.rotation as i32 + direction) as usize;
        let kick_idx = if direction == 1 {
            p.rotation * 2
        } else {
            p.rotation * 2 + 7
        } % 8;
        let kicks = if p.kind == TetrominoType::I {
            wall_kick_i(kick_idx)
        } else {
            wall_kick_jlstz(kick_idx)
        };
        assert(kicks@ == kick_offsets(p, direction));
        let mut j: usize = 0;
        while j < 5
            invariant
                0 <= j <= 5,
                self.active_piece == Some(p),
                p.kind != TetrominoType::O,
                in_i32((p.rotation as i32) as int + direction),
                direction == 1 ==> p.rotation * 2 <= usize::MAX,
                direction != 1 ==> p.rotation * 2 + 7 <= usize::MAX,
                kicks@ == kick_offsets(p, direction),
                new_rot == new_rotation(p, direction),
                forall|i: int| 0 <= i < j ==> #[trigger] kick_fits(p, direction, i),
                forall|i: int| 0 <= i < j ==> !#[trigger] kick_valid(self@.board, p, direction, i),
            decreases 5 - j,
        {
            let kx = p.x as i64 + kicks[j].0 as i64;
            let ky = p.y as i64 + kicks[j].1 as i64;
            if !(in_i32_exec(kx) && in_i32_exec(ky) && cells_fit_at(p.kind, new_rot, kx, ky)) {
                proof {
                    assert(!kick_fits(p, direction, j as int));
                }
                return false;
            }
            assert(kick_fits(p, direction, j as int));
            let test = Piece { kind: p.kind, x: kx as i32, y: ky as i32, rotation: new_rot };
            if self.is_valid_position(&test) {
                proof {
                    assert(kick_valid(self@.board, p, direction, j as int));
                    assert forall|k: int|
                        0 <= k < 5 && (forall|i: int|
                            0 <= i < k ==> !kick_valid(self@.board, p, direction, i)) implies #[trigger] kick_fits(
                        p,
                        direction,
                        k,
                    ) by {
                        if k > j {
                            assert(!kick_valid(self@.board, p, direction, j as int));
                        }
                    }
                }
                return true;
            }
            assert(!kick_valid(self@.board, p, direction, j as int));
            j = j + 1;
        }
        true
    }

    /// Whether clearing `n` rows keeps the score, line count and level inside `u32`.
    fn scoring_allows(&self, n: usize) -> (r: bool)
        requires
            n <= VISIBLE_HEIGHT,
        ensures
            r == scoring_fits(self@, n as int),
    {
        if n == 0 {
            return true;
        }
        let base: u64 = if n == 1 {
            100
        } else if n == 2 {
            300
        } else if n == 3 {
            500
        } else {
            800
        };
        let level = self.level as u64;
        assert(base * level <= 800 * 0xffff_ffff) by (nonlinear_arith)
            requires
                base <= 800,
                level <= 0xffff_ffff,
        ;
        let gain = base * level;
        self.lines_cleared as u64 + n as u64 <= u32::MAX as u64 && gain <= u32::MAX as u64
            && self.score as u64 + gain <= u32::MAX as u64
    }

    /// Whether locking `piece` into this game's board keeps every value inside its type.
    fn lock_allowed(&self, piece: Option<Piece>) -> (r: bool)
        ensures
            r == lock_ok(GameModel { active_piece: piece, ..self@ }),
    {
        let ghost m = GameModel { active_piece: piece, ..self@ };
        match piece {
            None => {
                let n = count_full_rows(&self.board);
                assert(place_model(m) == m);
                self.scoring_allows(n)
            },
            Some(p) => {
                if !cells_fit_at(p.kind, p.rotation, p.x as i64, p.y as i64) {
                    return false;
                }
                let mut board = self.board;
                place_piece(&mut board, p);
                let n = count_full_rows(&board);
                assert(place_model(m).board == board_rows(board));
                self.scoring_allows(n)
            },
        }
    }

    /// Whether `lock_piece` keeps every value inside its type.
    pub fn can_lock(&self) -> (r: bool)
        ensures
            r == lock_ok(self@),
    {
        assert((GameModel { active_piece: self.active_piece, ..self@ }) == self@);
        self.lock_allowed(self.active_piece)
    }

    /// Whether `hard_drop` keeps every value inside its type.
    pub fn can_hard_drop(&self) -> (r: bool)
        ensures
            r == hard_drop_ok(self@),
    {
        if self.game_over || self.paused {
            return true;
        }
        if !self.can_move(0, -1) {
            return false;
        }
        match self.active_piece {
            None => {
                assert(dropped_model(self@) == self@);
                self.can_lock()
            },
            Some(p) => {
                let landed = self.ghost_y();
                match landed {
                    Some(y) => {
                        proof {
                            lemma_landing_unique(self@.board, p, y as int, landing(self@.board, p));
                        }
                        let q = Piece { y, ..p };
                        let r = self.lock_allowed(Some(q));
                        proof {
                            let dm = dropped_model(self@);
                            let qm = GameModel { active_piece: Some(q), ..self@ };
                            assert(place_model(dm).board == place_model(qm).board);
                            assert(lock_ok(dm) == lock_ok(qm));
                        }
                        r
                    },
                    None => false,
                }
            },
        }
    }

    /// Whether `fall_step` keeps every value inside its type.
    pub fn can_fall_step(&self) -> (r: bool)
        ensures
            r == fall_step_ok(self@),
    {
        if self.game_over || self.paused {
            return true;
        }
        match self.active_piece {
            None => true,
            Some(p) => {
                if !self.can_move(0, -1) {
                    return false;
                }
                let below = Piece { y: p.y - 1, ..p };
                if self.is_valid_position(&below) {
                    true
                } else {
                    self.can_lock()
                }
            },
        }
    }

    /// Whether `auto_shift` keeps every value inside its type.
    pub fn can_auto_shift(&self) -> (r: bool)
        ensures
            r == shift_ok(self@),
    {
        if self.game_over || self.paused || self.das_direction == 0 {
            return true;
        }
        -1 <= self.das_direction && self.das_direction <= 1 && self.can_move(self.das_direction, 0)
    }

    /// Whether `on_key(key, pressed)` keeps every value inside its type.
    pub fn can_handle_key(&self, key: TetrisKey, pressed: bool) -> (r: bool)
        ensures
            r == key_ok(self@, key, pressed),
    {
        if self.game_over || self.paused || !pressed {
            return true;
        }
        match key {
            TetrisKey::Left => self.can_move(-1, 0),
            TetrisKey::Right => self.can_move(1, 0),
            TetrisKey::Down => self.can_move(0, -1),
            TetrisKey::Up | TetrisKey::X => self.can_rotate(1),
            TetrisKey::Z => self.can_rotate(-1),
            TetrisKey::Space => self.can_hard_drop(),
            _ => true,
        }
    }
}

} // verus!
