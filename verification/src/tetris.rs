//! Tetris game logic: a 10x20 board, the seven classic tetrominoes, SRS
//! rotation with wall kicks, line clearing, scoring, hold and hard drop.
//!
//! The game state here is the whole discrete state of a game. The frame
//! timers of the game loop (gravity, lock delay, auto-shift) are kept by the
//! caller; the game tells it which of them to restart through its
//! `timer_resets` flags.
use vstd::prelude::*;
use std::collections::VecDeque;

verus! {

pub const BOARD_WIDTH: usize = 10;

pub const BOARD_HEIGHT: usize = 20;

pub const VISIBLE_HEIGHT: usize = 20;

/// The 7 classic tetromino shapes.
#[derive(Debug, Clone, Copy, PartialEq, Eq, Structural)]
pub enum TetrominoType {
    I,
    O,
    T,
    S,
    Z,
    J,
    L,
}

/// A single cell on the board.
#[derive(Debug, Clone, Copy, PartialEq, Eq, Structural)]
pub enum Cell {
    Empty,
    Filled(TetrominoType),
}

impl Default for Cell {
    fn default() -> (c: Self)
        ensures
            c == Cell::Empty,
    {
        Cell::Empty
    }
}

/// The RGB colour of each piece kind.
pub open spec fn spec_color(kind: TetrominoType) -> Seq<u8> {
    match kind {
        TetrominoType::I => seq![0u8, 255, 255],
        TetrominoType::O => seq![255u8, 255, 0],
        TetrominoType::T => seq![128u8, 0, 128],
        TetrominoType::S => seq![0u8, 255, 0],
        TetrominoType::Z => seq![255u8, 0, 0],
        TetrominoType::J => seq![0u8, 0, 255],
        TetrominoType::L => seq![255u8, 165, 0],
    }
}

/// The four (x, y) block offsets of each piece kind in its spawn orientation.
pub open spec fn spec_blocks(kind: TetrominoType) -> Seq<(i32, i32)> {
    match kind {
        TetrominoType::I => seq![(-1i32, 0i32), (0i32, 0i32), (1i32, 0i32), (2i32, 0i32)],
        TetrominoType::O => seq![(0i32, 0i32), (1i32, 0i32), (0i32, 1i32), (1i32, 1i32)],
        TetrominoType::T => seq![(-1i32, 0i32), (0i32, 0i32), (1i32, 0i32), (0i32, 1i32)],
        TetrominoType::S => seq![(-1i32, 0i32), (0i32, 0i32), (0i32, 1i32), (1i32, 1i32)],
        TetrominoType::Z => seq![(-1i32, 1i32), (0i32, 1i32), (0i32, 0i32), (1i32, 0i32)],
        TetrominoType::J => seq![(-1i32, 1i32), (-1i32, 0i32), (0i32, 0i32), (1i32, 0i32)],
        TetrominoType::L => seq![(-1i32, 0i32), (0i32, 0i32), (1i32, 0i32), (1i32, 1i32)],
    }
}

impl TetrominoType {
    /// Color for each piece (for UI rendering).
    pub fn color(self) -> (c: [u8; 3])
        ensures
            c@ == spec_color(self),
    {
        let c = match self {
            TetrominoType::I => [0, 255, 255],
            TetrominoType::O => [255, 255, 0],
            TetrominoType::T => [128, 0, 128],
            TetrominoType::S => [0, 255, 0],
            TetrominoType::Z => [255, 0, 0],
            TetrominoType::J => [0, 0, 255],
            TetrominoType::L => [255, 165, 0],
        };
        assert(c@ =~= spec_color(self));
        c
    }

    /// Initial shape definition as 4 (x, y) offsets from piece center.
    pub fn blocks(self) -> (b: [(i32, i32); 4])
        ensures
            b@ == spec_blocks(self),
    {
        let b = match self {
            TetrominoType::I => [(-1, 0), (0, 0), (1, 0), (2, 0)],
            TetrominoType::O => [(0, 0), (1, 0), (0, 1), (1, 1)],
            TetrominoType::T => [(-1, 0), (0, 0), (1, 0), (0, 1)],
            TetrominoType::S => [(-1, 0), (0, 0), (0, 1), (1, 1)],
            TetrominoType::Z => [(-1, 1), (0, 1), (0, 0), (1, 0)],
            TetrominoType::J => [(-1, 1), (-1, 0), (0, 0), (1, 0)],
            TetrominoType::L => [(-1, 0), (0, 0), (1, 0), (1, 1)],
        };
        assert(b@ =~= spec_blocks(self));
        b
    }
}

/// Active falling piece.
#[derive(Debug, Clone, Copy, PartialEq, Eq, Structural)]
pub struct Piece {
    pub kind: TetrominoType,
    pub x: i32,
    pub y: i32,
    pub rotation: usize,  // 0, 1, 2, 3
}

/// A point turned clockwise by `r` quarter turns on the board, whose y axis points
/// up: one turn maps (x, y) to (y, -x).
pub open spec fn rot_point(p: (int, int), r: nat) -> (int, int) {
    if r % 4 == 0 {
        p
    } else if r % 4 == 1 {
        (p.1, -p.0)
    } else if r % 4 == 2 {
        (-p.0, -p.1)
    } else {
        (-p.1, p.0)
    }
}

/// The board cells covered by a piece of `kind`, turned `rotation` times, at (x, y).
pub open spec fn cells_at(kind: TetrominoType, rotation: usize, x: int, y: int) -> Seq<(int, int)> {
    Seq::new(
        4,
        |i: int|
            {
                let b = spec_blocks(kind)[i];
                let r = rot_point((b.0 as int, b.1 as int), rotation as nat);
                (r.0 + x, r.1 + y)
            },
    )
}

pub open spec fn piece_cells(p: Piece) -> Seq<(int, int)> {
    cells_at(p.kind, p.rotation, p.x as int, p.y as int)
}

pub open spec fn in_i32(v: int) -> bool {
    i32::MIN <= v <= i32::MAX
}

/// The cells of a piece at (x, y) all have coordinates that an `i32` holds.
pub open spec fn cells_fit(kind: TetrominoType, rotation: usize, x: int, y: int) -> bool {
    forall|i: int|
        0 <= i < 4 ==> in_i32(#[trigger] cells_at(kind, rotation, x, y)[i].0) && in_i32(
            cells_at(kind, rotation, x, y)[i].1,
        )
}

pub open spec fn piece_fits(p: Piece) -> bool {
    cells_fit(p.kind, p.rotation, p.x as int, p.y as int)
}

/// Every block offset lies within two cells of the piece's centre, in every orientation.
pub proof fn lemma_cell_offsets(kind: TetrominoType, rotation: usize, x: int, y: int, i: int)
    requires
        0 <= i < 4,
    ensures
        x - 2 <= cells_at(kind, rotation, x, y)[i].0 <= x + 2,
        y - 2 <= cells_at(kind, rotation, x, y)[i].1 <= y + 2,
{
}

/// The turn of the offsets by `rotation` quarter turns, as `rotate_blocks` computes it.
pub open spec fn rotated_blocks(blocks: Seq<(i32, i32)>, rotation: nat) -> Seq<(int, int)> {
    Seq::new(
        blocks.len(),
        |i: int| rot_point((blocks[i].0 as int, blocks[i].1 as int), rotation),
    )
}

/// Rotate a set of block offsets by 90-degree increments clockwise: each turn maps
/// (x, y) to (y, -x).
pub(crate) fn rotate_blocks(blocks: &[(i32, i32); 4], rotation: usize) -> (r: [(i32, i32); 4])
    requires
        forall|i: int| 0 <= i < 4 ==> blocks@[i].0 > i32::MIN && blocks@[i].1 > i32::MIN,
    ensures
        forall|i: int|
            #![trigger r@[i]]
            0 <= i < 4 ==> (r@[i].0 as int, r@[i].1 as int) == rot_point(
                (blocks@[i].0 as int, blocks@[i].1 as int),
                rotation as nat,
            ),
{
    let mut result = *blocks;
    let turns = rotation % 4;
    let mut k: usize = 0;
    while k < turns
        invariant
            k <= turns,
            turns == rotation % 4,
            forall|i: int|
                #![trigger result@[i]]
                0 <= i < 4 ==> (result@[i].0 as int, result@[i].1 as int) == rot_point(
                    (blocks@[i].0 as int, blocks@[i].1 as int),
                    k as nat,
                ),
            forall|i: int| 0 <= i < 4 ==> blocks@[i].0 > i32::MIN && blocks@[i].1 > i32::MIN,
        decreases turns - k,
    {
        let mut i: usize = 0;
        while i < 4
            invariant
                0 <= i <= 4,
                k < turns,
                turns == rotation % 4,
                forall|j: int|
                    #![trigger result@[j]]
                    0 <= j < i ==> (result@[j].0 as int, result@[j].1 as int) == rot_point(
                        (blocks@[j].0 as int, blocks@[j].1 as int),
                        (k + 1) as nat,
                    ),
                forall|j: int|
                    #![trigger result@[j]]
                    i <= j < 4 ==> (result@[j].0 as int, result@[j].1 as int) == rot_point(
                        (blocks@[j].0 as int, blocks@[j].1 as int),
                        k as nat,
                    ),
                forall|j: int| 0 <= j < 4 ==> blocks@[j].0 > i32::MIN && blocks@[j].1 > i32::MIN,
            decreases 4 - i,
        {
            let (x, y) = result[i];
            result[i] = (y, -x);
            i = i + 1;
        }
        k = k + 1;
    }
    result
}

impl Piece {
    pub fn new(kind: TetrominoType, x: i32, y: i32) -> (p: Self)
        ensures
            p == (Piece { kind, x, y, rotation: 0 }),
    {
        Self { kind, x, y, rotation: 0 }
    }

    /// Get the absolute board positions of this piece's 4 blocks.
    pub fn absolute_blocks(&self) -> (r: [(i32, i32); 4])
        requires
            piece_fits(*self),
        ensures
            forall|i: int|
                #![trigger r@[i]]
                0 <= i < 4 ==> (r@[i].0 as int, r@[i].1 as int) == piece_cells(*self)[i],
    {
        let base = self.kind.blocks();
        let rotated = rotate_blocks(&base, self.rotation);
        let mut result = [(0, 0); 4];
        let mut i: usize = 0;
        while i < 4
            invariant
                0 <= i <= 4,
                piece_fits(*self),
                base@ == spec_blocks(self.kind),
                forall|j: int|
                    #![trigger rotated@[j]]
                    0 <= j < 4 ==> (rotated@[j].0 as int, rotated@[j].1 as int) == rot_point(
                        (base@[j].0 as int, base@[j].1 as int),
                        self.rotation as nat,
                    ),
                forall|j: int|
                    #![trigger result@[j]]
                    0 <= j < i ==> (result@[j].0 as int, result@[j].1 as int) == piece_cells(
                        *self,
                    )[j],
            decreases 4 - i,
        {
            assert(in_i32(piece_cells(*self)[i as int].0));
            let _ = rotated[i];
            result[i] = (rotated[i].0 + self.x, rotated[i].1 + self.y);
            i = i + 1;
        }
        result
    }
}

/// The rows of a board, bottom row first, each as its sequence of cells.
pub open spec fn board_rows(b: [[Cell; BOARD_WIDTH]; VISIBLE_HEIGHT]) -> Seq<Seq<Cell>> {
    Seq::new(VISIBLE_HEIGHT as nat, |y: int| b@[y]@)
}

/// Whether the cell at column `x`, row `y` holds a block.
pub open spec fn filled(rows: Seq<Seq<Cell>>, x: int, y: int) -> bool {
    rows[y][x] is Filled
}

/// A piece of `kind`, turned `rotation` times, may stand at (x, y): every block is
/// inside the side walls and above the floor, and no block overlaps a filled cell.
/// Blocks above the visible board are allowed.
pub open spec fn valid_at(
    rows: Seq<Seq<Cell>>,
    kind: TetrominoType,
    rotation: usize,
    x: int,
    y: int,
) -> bool {
    forall|i: int|
        #![trigger cells_at(kind, rotation, x, y)[i]]
        0 <= i < 4 ==> {
            let c = cells_at(kind, rotation, x, y)[i];
            &&& 0 <= c.0 < BOARD_WIDTH
            &&& c.1 >= 0
            &&& c.1 < VISIBLE_HEIGHT ==> !filled(rows, c.0, c.1)
        }
}

pub open spec fn valid_piece(rows: Seq<Seq<Cell>>, p: Piece) -> bool {
    valid_at(rows, p.kind, p.rotation, p.x as int, p.y as int)
}

/// A valid position never lies more than two rows below the floor or two
/// columns beyond a wall.
pub proof fn lemma_valid_bounds(
    rows: Seq<Seq<Cell>>,
    kind: TetrominoType,
    rotation: usize,
    x: int,
    y: int,
)
    requires
        valid_at(rows, kind, rotation, x, y),
    ensures
        y >= -2,
        -2 <= x <= 11,
{
    lemma_cell_offsets(kind, rotation, x, y, 0);
    assert(cells_at(kind, rotation, x, y)[0].1 >= 0);
}

/// One row lower than a valid position every coordinate still fits an `i32`.
pub proof fn lemma_fit_down(
    rows: Seq<Seq<Cell>>,
    kind: TetrominoType,
    rotation: usize,
    x: int,
    y: int,
)
    requires
        valid_at(rows, kind, rotation, x, y),
        cells_fit(kind, rotation, x, y),
        in_i32(x),
        in_i32(y),
    ensures
        cells_fit(kind, rotation, x, y - 1),
        in_i32(y - 1),
{
    lemma_valid_bounds(rows, kind, rotation, x, y);
    assert forall|i: int| 0 <= i < 4 implies in_i32(
        #[trigger] cells_at(kind, rotation, x, y - 1)[i].0,
    ) && in_i32(cells_at(kind, rotation, x, y - 1)[i].1) by {
        assert(cells_at(kind, rotation, x, y)[i].1 >= 0);
    }
}

/// Signals that the caller's frame timers must restart.
#[derive(Debug, Clone, Copy, PartialEq, Eq, Structural)]
pub struct TimerResets {
    /// Restart the gravity (fall) timer.
    pub fall: bool,
    /// Restart the lock-delay timer.
    pub lock_delay: bool,
    /// Restart the delayed-auto-shift timer.
    pub das: bool,
    /// Restart the soft-drop timer.
    pub soft_drop: bool,
}

impl TimerResets {
    pub fn none() -> (r: Self)
        ensures
            r == (TimerResets { fall: false, lock_delay: false, das: false, soft_drop: false }),
    {
        TimerResets { fall: false, lock_delay: false, das: false, soft_drop: false }
    }
}

/// Complete discrete Tetris game state.
#[derive(Debug, Clone)]
pub struct TetrisGame {
    pub board: [[Cell; BOARD_WIDTH]; VISIBLE_HEIGHT],
    pub active_piece: Option<Piece>,
    pub hold_piece: Option<TetrominoType>,
    pub queue: VecDeque<TetrominoType>,
    pub score: u32,
    pub lines_cleared: u32,
    pub level: u32,
    pub game_over: bool,
    pub paused: bool,
    pub lock_resets: u32,
    /// Delayed auto-shift direction: -1 left, 1 right, 0 none.
    pub das_direction: i32,
    /// Timers that the last operations asked to restart; the owner of the
    /// timers clears this after acting on it.
    pub timer_resets: TimerResets,
}

/// The mathematical state of a game.
#[verifier::ext_equal]
pub struct GameModel {
    pub board: Seq<Seq<Cell>>,
    pub active_piece: Option<Piece>,
    pub hold_piece: Option<TetrominoType>,
    pub queue: Seq<TetrominoType>,
    pub score: u32,
    pub lines_cleared: u32,
    pub level: u32,
    pub game_over: bool,
    pub paused: bool,
    pub lock_resets: u32,
    pub das_direction: i32,
    pub timer_resets: TimerResets,
}

impl View for TetrisGame {
    type V = GameModel;

    open spec fn view(&self) -> GameModel {
        GameModel {
            board: board_rows(self.board),
            active_piece: self.active_piece,
            hold_piece: self.hold_piece,
            queue: self.queue@,
            score: self.score,
            lines_cleared: self.lines_cleared,
            level: self.level,
            game_over: self.game_over,
            paused: self.paused,
            lock_resets: self.lock_resets,
            das_direction: self.das_direction,
            timer_resets: self.timer_resets,
        }
    }
}

/// Keys that the game reacts to; every other key is `Other`.
#[derive(Debug, Clone, Copy, PartialEq, Eq, Structural)]
pub enum TetrisKey {
    Left,
    Right,
    Down,
    Up,
    X,
    Z,
    Space,
    C,
    ShiftLeft,
    ShiftRight,
    Other,
}

// ---------------------------------------------------------------- the queue

/// The bag before shuffling.
pub open spec fn initial_bag() -> Seq<TetrominoType> {
    seq![
        TetrominoType::I,
        TetrominoType::O,
        TetrominoType::T,
        TetrominoType::S,
        TetrominoType::Z,
        TetrominoType::J,
        TetrominoType::L,
    ]
}

/// The position that bag slot `i` is swapped with, for a given score.
pub open spec fn bag_swap_index(score: u32, i: int) -> int {
    (score.wrapping_add((i * 12345) as u32) % ((i + 1) as u32)) as int
}

/// The bag after the first `n` steps of the shuffle, which visits slots 6, 5, ..., 1.
pub open spec fn shuffle_steps(score: u32, n: nat) -> Seq<TetrominoType>
    decreases n,
{
    if n == 0 {
        initial_bag()
    } else {
        let s = shuffle_steps(score, (n - 1) as nat);
        let i = 7 - n;
        let j = bag_swap_index(score, i);
        s.update(i, s[j]).update(j, s[i])
    }
}

/// The seven pieces that a refill appends, for a given score.
pub open spec fn spec_bag(score: u32) -> Seq<TetrominoType> {
    shuffle_steps(score, 6)
}

pub proof fn lemma_shuffle_len(score: u32, n: nat)
    requires
        n <= 6,
    ensures
        shuffle_steps(score, n).len() == 7,
    decreases n,
{
    if n > 0 {
        lemma_shuffle_len(score, (n - 1) as nat);
    }
}

/// The queue as `next_piece_type` sees it after refilling.
pub open spec fn refilled_queue(queue: Seq<TetrominoType>, score: u32) -> Seq<TetrominoType> {
    if queue.len() < 7 {
        queue + spec_bag(score)
    } else {
        queue
    }
}

// ---------------------------------------------------------------- spawning

/// The piece of `kind` as it spawns: column 4, row 18 for I and 19 otherwise.
pub open spec fn spawn_of(kind: TetrominoType) -> Piece {
    Piece {
        kind,
        x: (BOARD_WIDTH / 2 - 1) as i32,
        y: if kind == TetrominoType::I {
            18
        } else {
            19
        },
        rotation: 0,
    }
}

/// The game after `spawn_piece`: the next piece of the queue enters at its spawn
/// position, or the game is over when that position is blocked.
pub open spec fn spawn_model(m: GameModel) -> GameModel {
    let q = refilled_queue(m.queue, m.score);
    let p = spawn_of(q[0]);
    if valid_piece(m.board, p) {
        GameModel {
            queue: q.drop_first(),
            active_piece: Some(p),
            lock_resets: 0,
            timer_resets: TimerResets { fall: true, lock_delay: true, ..m.timer_resets },
            ..m
        }
    } else {
        GameModel { queue: q.drop_first(), game_over: true, ..m }
    }
}

// ---------------------------------------------------------------- locking

/// Whether the piece covers the cell (x, y).
pub open spec fn covers(p: Piece, x: int, y: int) -> bool {
    exists|j: int| 0 <= j < 4 && #[trigger] piece_cells(p)[j] == (x, y)
}

/// The rows with the piece written into every cell it covers.
pub open spec fn placed_rows(rows: Seq<Seq<Cell>>, p: Piece) -> Seq<Seq<Cell>> {
    Seq::new(
        VISIBLE_HEIGHT as nat,
        |y: int|
            Seq::new(
                BOARD_WIDTH as nat,
                |x: int|
                    if covers(p, x, y) {
                        Cell::Filled(p.kind)
                    } else {
                        rows[y][x]
                    },
            ),
    )
}

pub open spec fn place_model(m: GameModel) -> GameModel {
    match m.active_piece {
        Some(p) => GameModel { board: placed_rows(m.board, p), ..m },
        None => m,
    }
}

pub open spec fn row_full(row: Seq<Cell>) -> bool {
    forall|x: int| 0 <= x < BOARD_WIDTH ==> #[trigger] row[x] is Filled
}

pub open spec fn empty_row() -> Seq<Cell> {
    Seq::new(BOARD_WIDTH as nat, |x: int| Cell::Empty)
}

/// The rows among the first `k` that are not full, bottom first.
pub open spec fn kept_rows(rows: Seq<Seq<Cell>>, k: nat) -> Seq<Seq<Cell>>
    decreases k,
{
    if k == 0 {
        Seq::empty()
    } else {
        let prev = kept_rows(rows, (k - 1) as nat);
        if row_full(rows[k - 1]) {
            prev
        } else {
            prev.push(rows[k - 1])
        }
    }
}

pub proof fn lemma_kept_len(rows: Seq<Seq<Cell>>, k: nat)
    ensures
        kept_rows(rows, k).len() <= k,
    decreases k,
{
    if k > 0 {
        lemma_kept_len(rows, (k - 1) as nat);
    }
}

/// The board after clearing: the rows that are not full drop down in their order,
/// and empty rows fill the top.
pub open spec fn cleared_rows(rows: Seq<Seq<Cell>>) -> Seq<Seq<Cell>> {
    let kept = kept_rows(rows, VISIBLE_HEIGHT as nat);
    kept + Seq::new((VISIBLE_HEIGHT - kept.len()) as nat, |i: int| empty_row())
}

/// The number of full rows.
pub open spec fn full_row_count(rows: Seq<Seq<Cell>>) -> int {
    VISIBLE_HEIGHT - kept_rows(rows, VISIBLE_HEIGHT as nat).len()
}

/// Points for clearing `lines` rows at once, before the level factor.
pub open spec fn line_score(lines: int) -> int {
    if lines == 1 {
        100
    } else if lines == 2 {
        300
    } else if lines == 3 {
        500
    } else {
        800
    }
}

/// Clearing `lines` rows keeps the counters inside `u32`.
pub open spec fn scoring_fits(m: GameModel, lines: int) -> bool {
    lines > 0 ==> {
        &&& m.lines_cleared + lines <= u32::MAX
        &&& line_score(lines) * m.level <= u32::MAX
        &&& m.score + line_score(lines) * m.level <= u32::MAX
    }
}

/// The game after clearing full rows and scoring them: 100, 300, 500 or 800 points
/// times the level for 1, 2, 3 or more rows, and a level of one more than a tenth
/// of all cleared rows.
pub open spec fn clear_model(m: GameModel) -> GameModel {
    let n = full_row_count(m.board);
    if n > 0 {
        let lines = (m.lines_cleared + n) as u32;
        GameModel {
            board: cleared_rows(m.board),
            lines_cleared: lines,
            score: (m.score + line_score(n) * m.level) as u32,
            level: (lines / 10 + 1) as u32,
            ..m
        }
    } else {
        GameModel { board: cleared_rows(m.board), ..m }
    }
}

/// `lock_piece` keeps every value inside its type.
pub open spec fn lock_ok(m: GameModel) -> bool {
    &&& m.active_piece matches Some(p) ==> piece_fits(p)
    &&& scoring_fits(place_model(m), full_row_count(place_model(m).board))
}

pub open spec fn lock_model(m: GameModel) -> GameModel {
    spawn_model(clear_model(place_model(m)))
}

// ---------------------------------------------------------------- moving

/// The position of `p` moved by (dx, dy).
pub open spec fn moved(p: Piece, dx: int, dy: int) -> Piece {
    Piece { x: (p.x + dx) as i32, y: (p.y + dy) as i32, ..p }
}

/// Moving `p` by (dx, dy) keeps every coordinate inside `i32`.
pub open spec fn move_fits(p: Piece, dx: int, dy: int) -> bool {
    &&& in_i32(p.x + dx)
    &&& in_i32(p.y + dy)
    &&& cells_fit(p.kind, p.rotation, p.x + dx, p.y + dy)
}

pub open spec fn move_ok(m: GameModel, dx: int, dy: int) -> bool {
    m.active_piece matches Some(p) ==> move_fits(p, dx, dy)
}

/// Whether a piece at its position rests on the floor or on blocks.
pub open spec fn on_ground(rows: Seq<Seq<Cell>>, p: Piece) -> bool {
    !valid_at(rows, p.kind, p.rotation, p.x as int, p.y - 1)
}

/// The game after `try_move(dx, dy)`: the piece moves when the new position is valid;
/// a downward move onto the ground restarts the lock delay and its reset count.
pub open spec fn move_model(m: GameModel, dx: int, dy: int) -> GameModel {
    match m.active_piece {
        None => m,
        Some(p) => {
            let t = moved(p, dx, dy);
            if valid_piece(m.board, t) {
                if dy < 0 && on_ground(m.board, t) {
                    GameModel {
                        active_piece: Some(t),
                        lock_resets: 0,
                        timer_resets: TimerResets { lock_delay: true, ..m.timer_resets },
                        ..m
                    }
                } else {
                    GameModel { active_piece: Some(t), ..m }
                }
            } else {
                m
            }
        },
    }
}

pub open spec fn move_succeeds(m: GameModel, dx: int, dy: int) -> bool {
    m.active_piece matches Some(p) && valid_piece(m.board, moved(p, dx, dy))
}

// ---------------------------------------------------------------- rotating

/// The rotation after turning by `direction` quarter turns, in 0..4.
pub open spec fn new_rotation(p: Piece, direction: i32) -> usize {
    (((p.rotation as i32) as int + direction) % 4) as usize
}

/// The row of the kick table for the transition out of the piece's rotation.
pub open spec fn kick_index(p: Piece, direction: i32) -> int {
    if direction == 1 {
        (p.rotation * 2) % 8
    } else {
        (p.rotation * 2 + 7) % 8
    }
}

pub open spec fn kick_offsets(p: Piece, direction: i32) -> Seq<(i32, i32)> {
    if p.kind == TetrominoType::I {
        kicks_i(kick_index(p, direction))
    } else {
        kicks_jlstz(kick_index(p, direction))
    }
}

/// The j-th kick position tried when turning `p` by `direction`, in exact integers.
pub open spec fn kick_x(p: Piece, direction: i32, j: int) -> int {
    p.x + kick_offsets(p, direction)[j].0
}

pub open spec fn kick_y(p: Piece, direction: i32, j: int) -> int {
    p.y + kick_offsets(p, direction)[j].1
}

pub open spec fn kick_valid(rows: Seq<Seq<Cell>>, p: Piece, direction: i32, j: int) -> bool {
    valid_at(
        rows,
        p.kind,
        new_rotation(p, direction),
        kick_x(p, direction, j),
        kick_y(p, direction, j),
    )
}

pub open spec fn kick_fits(p: Piece, direction: i32, j: int) -> bool {
    &&& in_i32(kick_x(p, direction, j))
    &&& in_i32(kick_y(p, direction, j))
    &&& cells_fit(p.kind, new_rotation(p, direction), kick_x(p, direction, j), kick_y(p, direction, j))
}

pub open spec fn kick_piece(p: Piece, direction: i32, j: int) -> Piece {
    Piece {
        kind: p.kind,
        x: kick_x(p, direction, j) as i32,
        y: kick_y(p, direction, j) as i32,
        rotation: new_rotation(p, direction),
    }
}

/// The first kick at or after `j` that gives a valid position.
pub open spec fn first_kick(rows: Seq<Seq<Cell>>, p: Piece, direction: i32, j: nat) -> Option<
    nat,
>
    decreases 5 - j,
{
    if j >= 5 {
        None
    } else if kick_valid(rows, p, direction, j as int) {
        Some(j)
    } else {
        first_kick(rows, p, direction, j + 1)
    }
}

/// `try_rotate(direction)` keeps every value inside its type.
pub open spec fn rotate_ok(m: GameModel, direction: i32) -> bool {
    m.active_piece matches Some(p) ==> {
        &&& in_i32((p.rotation as i32) as int + direction)
        &&& p.kind != TetrominoType::O ==> {
            &&& (direction == 1 ==> p.rotation * 2 <= usize::MAX)
            &&& (direction != 1 ==> p.rotation * 2 + 7 <= usize::MAX)
            &&& forall|j: int|
                0 <= j < 5 && (forall|i: int| 0 <= i < j ==> !kick_valid(m.board, p, direction, i))
                    ==> #[trigger] kick_fits(p, direction, j)
        }
    }
}

/// The game after `try_rotate(direction)`: the O piece never turns; any other piece
/// takes the first valid kick position; landing there restarts the lock delay while
/// fewer than 15 such restarts have happened.
pub open spec fn rotate_model(m: GameModel, direction: i32) -> GameModel {
    match m.active_piece {
        None => m,
        Some(p) => if p.kind == TetrominoType::O {
            m
        } else {
            match first_kick(m.board, p, direction, 0) {
                None => m,
                Some(j) => {
                    let t = kick_piece(p, direction, j as int);
                    if on_ground(m.board, t) && m.lock_resets < 15 {
                        GameModel {
                            active_piece: Some(t),
                            lock_resets: (m.lock_resets + 1) as u32,
                            timer_resets: TimerResets { lock_delay: true, ..m.timer_resets },
                            ..m
                        }
                    } else {
                        GameModel { active_piece: Some(t), ..m }
                    }
                },
            }
        },
    }
}

pub open spec fn rotate_succeeds(m: GameModel, direction: i32) -> bool {
    m.active_piece matches Some(p) && p.kind != TetrominoType::O && first_kick(
        m.board,
        p,
        direction,
        0,
    ) is Some
}

// ---------------------------------------------------------------- hold

/// The game after `hold`: the active piece goes to the hold slot; a held piece
/// re-enters at column 4, row 19 (ending the game when blocked), otherwise the
/// next piece spawns.
pub open spec fn hold_model(m: GameModel) -> GameModel {
    if m.game_over || m.paused {
        m
    } else {
        match m.active_piece {
            None => m,
            Some(piece) => match m.hold_piece {
                Some(kind) => {
                    let np = Piece { kind, x: (BOARD_WIDTH / 2 - 1) as i32, y: 19, rotation: 0 };
                    GameModel {
                        hold_piece: Some(piece.kind),
                        active_piece: Some(np),
                        game_over: if valid_piece(m.board, np) {
                            m.game_over
                        } else {
                            true
                        },
                        ..m
                    }
                },
                None => spawn_model(
                    GameModel { hold_piece: Some(piece.kind), active_piece: None, ..m },
                ),
            },
        }
    }
}

// ---------------------------------------------------------------- dropping

/// The row `r` that a piece at row `p.y` reaches by stepping down one row at a
/// time while the next row down is valid.
pub open spec fn is_landing(rows: Seq<Seq<Cell>>, p: Piece, r: int) -> bool {
    &&& r <= p.y
    &&& forall|k: int| r <= k < p.y ==> valid_at(rows, p.kind, p.rotation, p.x as int, k)
    &&& !valid_at(rows, p.kind, p.rotation, p.x as int, r - 1)
}

/// There is at most one landing row.
pub proof fn lemma_landing_unique(rows: Seq<Seq<Cell>>, p: Piece, r1: int, r2: int)
    requires
        is_landing(rows, p, r1),
        is_landing(rows, p, r2),
    ensures
        r1 == r2,
{
    if r1 < r2 {
        assert(valid_at(rows, p.kind, p.rotation, p.x as int, r2 - 1));
    } else if r2 < r1 {
        assert(valid_at(rows, p.kind, p.rotation, p.x as int, r1 - 1));
    }
}

pub open spec fn landing(rows: Seq<Seq<Cell>>, p: Piece) -> int {
    choose|r: int| is_landing(rows, p, r)
}

/// The game after the active piece has stepped down as far as it goes. The last
/// step down (if any) lands it on the ground and so restarts the lock delay.
pub open spec fn dropped_model(m: GameModel) -> GameModel {
    match m.active_piece {
        None => m,
        Some(p) => {
            let r = landing(m.board, p);
            if r < p.y {
                GameModel {
                    active_piece: Some(Piece { y: r as i32, ..p }),
                    lock_resets: 0,
                    timer_resets: TimerResets { lock_delay: true, ..m.timer_resets },
                    ..m
                }
            } else {
                m
            }
        },
    }
}

pub open spec fn hard_drop_ok(m: GameModel) -> bool {
    !(m.game_over || m.paused) ==> move_ok(m, 0, -1) && lock_ok(dropped_model(m))
}

pub open spec fn hard_drop_model(m: GameModel) -> GameModel {
    if m.game_over || m.paused {
        m
    } else {
        lock_model(dropped_model(m))
    }
}

// ---------------------------------------------------------------- gravity and auto-shift

/// `fall_step` keeps every value inside its type.
pub open spec fn fall_step_ok(m: GameModel) -> bool {
    (!(m.game_over || m.paused) && m.active_piece is Some) ==> {
        &&& move_ok(m, 0, -1)
        &&& !move_succeeds(m, 0, -1) ==> lock_ok(m)
    }
}

/// The game after one gravity step: the piece moves down a row, or locks where it
/// stands when it cannot. A paused or finished game, or one without a piece, stays.
pub open spec fn fall_step_model(m: GameModel) -> GameModel {
    if m.game_over || m.paused || m.active_piece is None {
        m
    } else if move_succeeds(m, 0, -1) {
        move_model(m, 0, -1)
    } else {
        lock_model(m)
    }
}

/// The game after `n` attempts to shift the piece by `dir` columns.
pub open spec fn shifted(m: GameModel, dir: int, n: nat) -> GameModel
    decreases n,
{
    if n == 0 {
        m
    } else {
        move_model(shifted(m, dir, (n - 1) as nat), dir, 0)
    }
}

/// Whether `auto_shift` does nothing: the game is paused or over, or no shift is held.
pub open spec fn shift_idle(m: GameModel) -> bool {
    m.game_over || m.paused || m.das_direction == 0
}

/// `auto_shift` keeps every value inside its type.
pub open spec fn shift_ok(m: GameModel) -> bool {
    !shift_idle(m) ==> -1 <= m.das_direction <= 1 && move_ok(m, m.das_direction as int, 0)
}

/// A piece that stands in a valid position can always be shifted by one column
/// without leaving `i32`.
pub proof fn lemma_shift_fits(rows: Seq<Seq<Cell>>, p: Piece, dir: int)
    requires
        valid_piece(rows, p),
        piece_fits(p),
        -1 <= dir <= 1,
    ensures
        move_fits(p, dir, 0),
{
    lemma_valid_bounds(rows, p.kind, p.rotation, p.x as int, p.y as int);
    assert forall|i: int| 0 <= i < 4 implies in_i32(
        #[trigger] cells_at(p.kind, p.rotation, p.x + dir, p.y + 0)[i].0,
    ) && in_i32(cells_at(p.kind, p.rotation, p.x + dir, p.y + 0)[i].1) by {
        assert(cells_at(p.kind, p.rotation, p.x as int, p.y as int)[i].0 < BOARD_WIDTH);
        assert(in_i32(cells_at(p.kind, p.rotation, p.x as int, p.y as int)[i].1));
    }
}

/// A failed shift leaves the game as it was.
pub proof fn lemma_failed_move_keeps(m: GameModel, dx: int, dy: int)
    requires
        !move_succeeds(m, dx, dy),
    ensures
        move_model(m, dx, dy) == m,
{
}

/// Once a shift fails every later one fails too: holding a direction until the piece
/// is blocked gives one game state, however many further shifts are tried.
pub proof fn lemma_shift_stops(m: GameModel, dir: int, k1: nat, k2: nat)
    requires
        !move_succeeds(shifted(m, dir, k1), dir, 0),
        k1 <= k2,
    ensures
        shifted(m, dir, k2) == shifted(m, dir, k1),
    decreases k2 - k1,
{
    if k1 < k2 {
        lemma_shift_stops(m, dir, k1, (k2 - 1) as nat);
    }
}

// ---------------------------------------------------------------- keys

/// `on_key(key, pressed)` keeps every value inside its type.
pub open spec fn key_ok(m: GameModel, key: TetrisKey, pressed: bool) -> bool {
    (!(m.game_over || m.paused) && pressed) ==> match key {
        TetrisKey::Left => move_ok(m, -1, 0),
        TetrisKey::Right => move_ok(m, 1, 0),
        TetrisKey::Down => move_ok(m, 0, -1),
        TetrisKey::Up | TetrisKey::X => rotate_ok(m, 1),
        TetrisKey::Z => rotate_ok(m, -1i32),
        TetrisKey::Space => hard_drop_ok(m),
        _ => true,
    }
}

/// The game after a key event: arrows shift (and start auto-shift) or soft-drop,
/// Up and X turn clockwise, Z counter-clockwise, Space hard-drops, C and Shift hold;
/// releasing Left or Right stops auto-shift.
pub open spec fn key_model(m: GameModel, key: TetrisKey, pressed: bool) -> GameModel {
    if m.game_over || m.paused {
        m
    } else if pressed {
        match key {
            TetrisKey::Left => {
                let m1 = move_model(m, -1, 0);
                GameModel {
                    das_direction: -1i32,
                    timer_resets: TimerResets { das: true, ..m1.timer_resets },
                    ..m1
                }
            },
            TetrisKey::Right => {
                let m1 = move_model(m, 1, 0);
                GameModel {
                    das_direction: 1,
                    timer_resets: TimerResets { das: true, ..m1.timer_resets },
                    ..m1
                }
            },
            TetrisKey::Down => move_model(
                GameModel { timer_resets: TimerResets { soft_drop: true, ..m.timer_resets }, ..m },
                0,
                -1,
            ),
            TetrisKey::Up | TetrisKey::X => rotate_model(m, 1),
            TetrisKey::Z => rotate_model(m, -1i32),
            TetrisKey::Space => hard_drop_model(m),
            TetrisKey::C | TetrisKey::ShiftLeft | TetrisKey::ShiftRight => hold_model(m),
            TetrisKey::Other => m,
        }
    } else {
        match key {
            TetrisKey::Left | TetrisKey::Right => GameModel { das_direction: 0, ..m },
            _ => m,
        }
    }
}

/// Wall-kick offsets of the J, L, S, T and Z pieces, one row per rotation transition (0->1, 1->0, 1->2, 2->1, 2->3, 3->2, 3->0, 0->3).
pub open spec fn kicks_jlstz(idx: int) -> Seq<(i32, i32)> {
    if idx == 0 {
        seq![(0i32, 0i32), (-1i32, 0i32), (-1i32, 1i32), (0i32, -2i32), (-1i32, -2i32)]
    } else if idx == 1 {
        seq![(0i32, 0i32), (1i32, 0i32), (1i32, -1i32), (0i32, 2i32), (1i32, 2i32)]
    } else if idx == 2 {
        seq![(0i32, 0i32), (1i32, 0i32), (1i32, 1i32), (0i32, -2i32), (1i32, -2i32)]
    } else if idx == 3 {
        seq![(0i32, 0i32), (-1i32, 0i32), (-1i32, -1i32), (0i32, 2i32), (-1i32, 2i32)]
    } else if idx == 4 {
        seq![(0i32, 0i32), (1i32, 0i32), (1i32, -1i32), (0i32, 2i32), (1i32, 2i32)]
    } else if idx == 5 {
        seq![(0i32, 0i32), (-1i32, 0i32), (-1i32, 1i32), (0i32, -2i32), (-1i32, -2i32)]
    } else if idx == 6 {
        seq![(0i32, 0i32), (-1i32, 0i32), (-1i32, -1i32), (0i32, 2i32), (-1i32, 2i32)]
    } else {
        seq![(0i32, 0i32), (1i32, 0i32), (1i32, 1i32), (0i32, -2i32), (1i32, -2i32)]
    }
}

/// Wall-kick offsets of the I piece, one row per rotation transition, ordered as for the other pieces.
pub open spec fn kicks_i(idx: int) -> Seq<(i32, i32)> {
    if idx == 0 {
        seq![(0i32, 0i32), (-2i32, 0i32), (1i32, 0i32), (-2i32, -1i32), (1i32, 2i32)]
    } else if idx == 1 {
        seq![(0i32, 0i32), (2i32, 0i32), (-1i32, 0i32), (2i32, 1i32), (-1i32, -2i32)]
    } else if idx == 2 {
        seq![(0i32, 0i32), (-1i32, 0i32), (2i32, 0i32), (-1i32, 2i32), (2i32, -1i32)]
    } else if idx == 3 {
        seq![(0i32, 0i32), (1i32, 0i32), (-2i32, 0i32), (1i32, -2i32), (-2i32, 1i32)]
    } else if idx == 4 {
        seq![(0i32, 0i32), (2i32, 0i32), (-1i32, 0i32), (2i32, 1i32), (-1i32, -2i32)]
    } else if idx == 5 {
        seq![(0i32, 0i32), (-2i32, 0i32), (1i32, 0i32), (-2i32, -1i32), (1i32, 2i32)]
    } else if idx == 6 {
        seq![(0i32, 0i32), (1i32, 0i32), (-2i32, 0i32), (1i32, -2i32), (-2i32, 1i32)]
    } else {
        seq![(0i32, 0i32), (-1i32, 0i32), (2i32, 0i32), (-1i32, 2i32), (2i32, -1i32)]
    }
}

/// Wall-kick data for SRS (Super Rotation System), for J, L, S, T, Z pieces.
pub(crate) fn wall_kick_jlstz(idx: usize) -> (r: [(i32, i32); 5])
    requires
        idx < 8,
    ensures
        r@ == kicks_jlstz(idx as int),
{
    let r = match idx {
        0 => [(0, 0), (-1, 0), (-1, 1), (0, -2), (-1, -2)],
        1 => [(0, 0), (1, 0), (1, -1), (0, 2), (1, 2)],
        2 => [(0, 0), (1, 0), (1, 1), (0, -2), (1, -2)],
        3 => [(0, 0), (-1, 0), (-1, -1), (0, 2), (-1, 2)],
        4 => [(0, 0), (1, 0), (1, -1), (0, 2), (1, 2)],
        5 => [(0, 0), (-1, 0), (-1, 1), (0, -2), (-1, -2)],
        6 => [(0, 0), (-1, 0), (-1, -1), (0, 2), (-1, 2)],
        _ => [(0, 0), (1, 0), (1, 1), (0, -2), (1, -2)],
    };
    assert(r@ =~= kicks_jlstz(idx as int));
    r
}

/// Wall-kick data for the I piece.
pub(crate) fn wall_kick_i(idx: usize) -> (r: [(i32, i32); 5])
    requires
        idx < 8,
    ensures
        r@ == kicks_i(idx as int),
{
    let r = match idx {
        0 => [(0, 0), (-2, 0), (1, 0), (-2, -1), (1, 2)],
        1 => [(0, 0), (2, 0), (-1, 0), (2, 1), (-1, -2)],
        2 => [(0, 0), (-1, 0), (2, 0), (-1, 2), (2, -1)],
        3 => [(0, 0), (1, 0), (-2, 0), (1, -2), (-2, 1)],
        4 => [(0, 0), (2, 0), (-1, 0), (2, 1), (-1, -2)],
        5 => [(0, 0), (-2, 0), (1, 0), (-2, -1), (1, 2)],
        6 => [(0, 0), (1, 0), (-2, 0), (1, -2), (-2, 1)],
        _ => [(0, 0), (-1, 0), (2, 0), (-1, 2), (2, -1)],
    };
    assert(r@ =~= kicks_i(idx as int));
    r
}
/// Write the blocks of `piece` that fall inside the board into `board`.
pub(crate) fn place_piece(board: &mut [[Cell; BOARD_WIDTH]; VISIBLE_HEIGHT], piece: Piece)
    requires
        piece_fits(piece),
    ensures
        board_rows(*final(board)) == placed_rows(board_rows(*old(board)), piece),
{
    let blocks = piece.absolute_blocks();
    let ghost b0 = board_rows(*board);
    let mut i: usize = 0;
    while i < 4
        invariant
            0 <= i <= 4,
            b0 == board_rows(*old(board)),
            forall|j: int|
                #![trigger blocks@[j]]
                0 <= j < 4 ==> (blocks@[j].0 as int, blocks@[j].1 as int) == piece_cells(piece)[j],
            forall|y: int, x: int|
                0 <= y < VISIBLE_HEIGHT && 0 <= x < BOARD_WIDTH ==> #[trigger] board@[y]@[x] == if exists|
                    j: int,
                | 0 <= j < i && #[trigger] piece_cells(piece)[j] == (x, y) {
                    Cell::Filled(piece.kind)
                } else {
                    b0[y][x]
                },
        decreases 4 - i,
    {
        let (bx, by) = blocks[i];
        assert((bx as int, by as int) == piece_cells(piece)[i as int]);
        if by >= 0 && by < VISIBLE_HEIGHT as i32 && bx >= 0 && bx < BOARD_WIDTH as i32 {
            board[by as usize][bx as usize] = Cell::Filled(piece.kind);
        }
        proof {
            assert forall|y: int, x: int|
                0 <= y < VISIBLE_HEIGHT && 0 <= x < BOARD_WIDTH implies #[trigger] board@[y]@[x]
                    == if exists|j: int| 0 <= j < i + 1 && #[trigger] piece_cells(piece)[j] == (x, y) {
                    Cell::Filled(piece.kind)
                } else {
                    b0[y][x]
                } by {
                if piece_cells(piece)[i as int] == (x, y) {
                } else {
                    if exists|j: int| 0 <= j < i + 1 && #[trigger] piece_cells(piece)[j] == (x, y) {
                        let j = choose|j: int| 0 <= j < i + 1 && #[trigger] piece_cells(piece)[j] == (x, y);
                        assert(j < i);
                    }
                }
            }
        }
        i = i + 1;
    }
    assert(board_rows(*board) =~= placed_rows(b0, piece)) by {
        assert forall|y: int| 0 <= y < VISIBLE_HEIGHT implies #[trigger] board_rows(*board)[y]
            =~= placed_rows(b0, piece)[y] by {
            assert forall|x: int| 0 <= x < BOARD_WIDTH implies #[trigger] board_rows(*board)[y][x]
                == placed_rows(b0, piece)[y][x] by {
                assert(board@[y]@[x] == board_rows(*board)[y][x]);
            }
        }
    }
}

/// Whether every cell of the row holds a block.
pub(crate) fn row_is_full(row: &[Cell; BOARD_WIDTH]) -> (r: bool)
    ensures
        r == row_full(row@),
{
    let mut x: usize = 0;
    while x < BOARD_WIDTH
        invariant
            0 <= x <= BOARD_WIDTH,
            forall|k: int| 0 <= k < x ==> #[trigger] row@[k] is Filled,
        decreases BOARD_WIDTH - x,
    {
        if let Cell::Empty = row[x] {
            return false;
        }
        x = x + 1;
    }
    true
}

/// The remainder of `v` divided by 4, in 0..4.
pub(crate) fn rem_euclid4(v: i32) -> (r: i32)
    ensures
        r as int == v as int % 4,
        0 <= r < 4,
{
    let m = v % 4;
    if m < 0 {
        m + 4
    } else {
        m
    }
}

impl Default for TetrisGame {
    fn default() -> (game: Self)
        ensures
            game@.board == Seq::new(VISIBLE_HEIGHT as nat, |y: int| empty_row()),
            game@.active_piece == Some(spawn_of(spec_bag(0)[0])),
            game@.queue == spec_bag(0).drop_first(),
            game@.hold_piece is None,
            game@.score == 0,
            game@.lines_cleared == 0,
            game@.level == 1,
            !game@.game_over,
            !game@.paused,
            game@.lock_resets == 0,
            game@.das_direction == 0,
            game@.timer_resets == (TimerResets {
                fall: true,
                lock_delay: true,
                das: false,
                soft_drop: false,
            }),
    {
        let mut game = Self {
            board: [[Cell::Empty; BOARD_WIDTH]; VISIBLE_HEIGHT],
            active_piece: None,
            hold_piece: None,
            queue: VecDeque::new(),
            score: 0,
            lines_cleared: 0,
            level: 1,
            game_over: false,
            paused: false,
            lock_resets: 0,
            das_direction: 0,
            timer_resets: TimerResets::none(),
        };
        assert(board_rows(game.board) =~= Seq::new(VISIBLE_HEIGHT as nat, |y: int| empty_row()))
            by {
            assert forall|y: int| 0 <= y < VISIBLE_HEIGHT implies game.board@[y]@ =~= empty_row() by {
            }
        }
        game.refill_queue();
        proof {
            lemma_shuffle_len(0, 6);
            let p = spawn_of(spec_bag(0)[0]);
            assert forall|i: int| 0 <= i < 4 implies {
                let c = #[trigger] cells_at(p.kind, p.rotation, p.x as int, p.y as int)[i];
                &&& 0 <= c.0 < BOARD_WIDTH
                &&& c.1 >= 0
                &&& c.1 < VISIBLE_HEIGHT ==> !filled(board_rows(game.board), c.0, c.1)
            } by {
                lemma_cell_offsets(p.kind, p.rotation, p.x as int, p.y as int, i);
            }
            assert(game@.queue =~= spec_bag(0));
        }
        game.spawn_piece();
        game
    }
}

impl TetrisGame {
    /// Create a new game.
    pub fn new() -> (game: Self)
        ensures
            game@.board == Seq::new(VISIBLE_HEIGHT as nat, |y: int| empty_row()),
            game@.active_piece == Some(spawn_of(spec_bag(0)[0])),
            game@.queue == spec_bag(0).drop_first(),
            game@.hold_piece is None,
            game@.score == 0,
            game@.lines_cleared == 0,
            game@.level == 1,
            !game@.game_over,
            !game@.paused,
            game@.lock_resets == 0,
            game@.das_direction == 0,
            game@.timer_resets == (TimerResets {
                fall: true,
                lock_delay: true,
                das: false,
                soft_drop: false,
            }),
    {
        Self::default()
    }

    /// Reset the game to starting state.
    pub fn reset(&mut self)
        ensures
            final(self)@.board == Seq::new(VISIBLE_HEIGHT as nat, |y: int| empty_row()),
            final(self)@.active_piece == Some(spawn_of(spec_bag(0)[0])),
            final(self)@.queue == spec_bag(0).drop_first(),
            final(self)@.hold_piece is None,
            final(self)@.score == 0,
            final(self)@.lines_cleared == 0,
            final(self)@.level == 1,
            !final(self)@.game_over,
            !final(self)@.paused,
            final(self)@.lock_resets == 0,
            final(self)@.das_direction == 0,
            final(self)@.timer_resets == (TimerResets {
                fall: true,
                lock_delay: true,
                das: false,
                soft_drop: false,
            }),
    {
        *self = Self::default();
    }

    /// Refill the piece queue with a 7-bag shuffled by the current score.
    fn refill_queue(&mut self)
        ensures
            final(self)@ == (GameModel {
                queue: old(self)@.queue + spec_bag(old(self).score),
                ..old(self)@
            }),
    {
        let mut bag = [
            TetrominoType::I,
            TetrominoType::O,
            TetrominoType::T,
            TetrominoType::S,
            TetrominoType::Z,
            TetrominoType::J,
            TetrominoType::L,
        ];
        assert(bag@ =~= shuffle_steps(self.score, 0));
        // Fisher-Yates shuffle over slots 6, 5, ..., 1.
        let mut i: usize = 6;
        while i >= 1
            invariant
                0 <= i <= 6,
                bag@ == shuffle_steps(self.score, (6 - i) as nat),
            decreases i,
        {
            proof {
                lemma_shuffle_len(self.score, (6 - i) as nat);
            }
            let j = (self.score.wrapping_add(i as u32 * 12345) % (i as u32 + 1)) as usize;
            let a = bag[i];
            let b = bag[j];
            bag[i] = b;
            bag[j] = a;
            assert(bag@ =~= shuffle_steps(self.score, (6 - i + 1) as nat));
            i = i - 1;
        }
        proof {
            lemma_shuffle_len(self.score, 6);
        }
        let ghost g0 = self@;
        let mut k: usize = 0;
        while k < 7
            invariant
                0 <= k <= 7,
                bag@ == spec_bag(g0.score),
                spec_bag(g0.score).len() == 7,
                self@ == (GameModel { queue: g0.queue + spec_bag(g0.score).take(k as int), ..g0 }),
            decreases 7 - k,
        {
            self.queue.push_back(bag[k]);
            assert(spec_bag(g0.score).take(k + 1) =~= spec_bag(g0.score).take(k as int).push(
                bag@[k as int],
            ));
            k = k + 1;
        }
        assert(spec_bag(g0.score).take(7) =~= spec_bag(g0.score));
    }

    fn next_piece_type(&mut self) -> (kind: TetrominoType)
        ensures
            kind == refilled_queue(old(self)@.queue, old(self).score)[0],
            final(self)@ == (GameModel {
                queue: refilled_queue(old(self)@.queue, old(self).score).drop_first(),
                ..old(self)@
            }),
    {
        proof {
            lemma_shuffle_len(self.score, 6);
        }
        if self.queue.len() < 7 {
            self.refill_queue();
        }
        match self.queue.pop_front() {
            Some(kind) => kind,
            None => TetrominoType::I,
        }
    }

    pub fn spawn_piece(&mut self)
        ensures
            final(self)@ == spawn_model(old(self)@),
    {
        let kind = self.next_piece_type();
        let spawn_x = BOARD_WIDTH as i32 / 2 - 1;
        let spawn_y = if kind == TetrominoType::I {
            18
        } else {
            19
        };
        let piece = Piece::new(kind, spawn_x, spawn_y);
        if !self.is_valid_position(&piece) {
            self.game_over = true;
            return ;
        }
        self.active_piece = Some(piece);
        self.timer_resets.fall = true;
        self.timer_resets.lock_delay = true;
        self.lock_resets = 0;
    }

    pub fn is_valid_position(&self, piece: &Piece) -> (r: bool)
        requires
            piece_fits(*piece),
        ensures
            r == valid_piece(self@.board, *piece),
    {
        let blocks = piece.absolute_blocks();
        let mut i: usize = 0;
        while i < 4
            invariant
                0 <= i <= 4,
                forall|j: int|
                    #![trigger blocks@[j]]
                    0 <= j < 4 ==> (blocks@[j].0 as int, blocks@[j].1 as int) == piece_cells(
                        *piece,
                    )[j],
                forall|j: int|
                    0 <= j < i ==> {
                        let c = #[trigger] cells_at(
                            piece.kind,
                            piece.rotation,
                            piece.x as int,
                            piece.y as int,
                        )[j];
                        &&& 0 <= c.0 < BOARD_WIDTH
                        &&& c.1 >= 0
                        &&& c.1 < VISIBLE_HEIGHT ==> !filled(board_rows(self.board), c.0, c.1)
                    },
            decreases 4 - i,
        {
            let (bx, by) = blocks[i];
            assert((bx as int, by as int) == piece_cells(*piece)[i as int]);
            if bx < 0 || bx >= BOARD_WIDTH as i32 || by < 0 {
                return false;
            }
            if by < VISIBLE_HEIGHT as i32 {
                if let Cell::Filled(_) = self.board[by as usize][bx as usize] {
                    return false;
                }
            }
            i = i + 1;
        }
        true
    }

    pub fn is_on_ground(&self, piece: &Piece) -> (r: bool)
        requires
            move_fits(*piece, 0, -1),
        ensures
            r == on_ground(self@.board, *piece),
    {
        let mut test = *piece;
        test.y = test.y - 1;
        !self.is_valid_position(&test)
    }

    /// Lock the active piece into the board.
    pub fn lock_piece(&mut self)
        requires
            lock_ok(old(self)@),
        ensures
            final(self)@ == lock_model(old(self)@),
    {
        if let Some(piece) = self.active_piece {
            let mut board = self.board;
            place_piece(&mut board, piece);
            self.board = board;
        }
        self.clear_lines();
        self.spawn_piece();
    }

    fn clear_lines(&mut self)
        requires
            scoring_fits(old(self)@, full_row_count(old(self)@.board)),
        ensures
            final(self)@ == clear_model(old(self)@),
    {
        let ghost o = board_rows(self.board);
        let ghost g0 = self@;
        let mut lines: u32 = 0;
        let mut y: usize = 0;
        let ghost mut p: nat = 0;
        proof {
            lemma_kept_len(o, 0);
        }
        while y < VISIBLE_HEIGHT
            invariant
                g0 == old(self)@,
                o == g0.board,
                self@ == (GameModel { board: board_rows(self.board), ..g0 }),
                p <= VISIBLE_HEIGHT,
                y <= VISIBLE_HEIGHT,
                kept_rows(o, p).len() <= p,
                lines as int == p - kept_rows(o, p).len(),
                p < VISIBLE_HEIGHT ==> y == kept_rows(o, p).len(),
                p == VISIBLE_HEIGHT ==> kept_rows(o, p).len() <= y,
                forall|i: int|
                    0 <= i < kept_rows(o, p).len() ==> #[trigger] self.board@[i]@ == kept_rows(
                        o,
                        p,
                    )[i],
                forall|j: int|
                    0 <= j < VISIBLE_HEIGHT - p ==> #[trigger] self.board@[kept_rows(o, p).len()
                        + j]@ == o[p + j],
                forall|i: int|
                    VISIBLE_HEIGHT - lines <= i < VISIBLE_HEIGHT ==> #[trigger] self.board@[i]@
                        == empty_row(),
            decreases (VISIBLE_HEIGHT - y) + (VISIBLE_HEIGHT - lines),
        {
            let full = row_is_full(&self.board[y]);
            if full {
                proof {
                    if p == VISIBLE_HEIGHT {
                        assert(self.board@[y as int]@ == empty_row());
                        assert(!(self.board@[y as int]@[0] is Filled));
                    }
                    assert(self.board@[kept_rows(o, p).len() + 0int]@ == o[p + 0int]);
                    assert(self.board@[y as int]@ == o[p as int]);
                }
                let ghost b1 = self.board;
                // Shift everything above row y down by one.
                let mut row: usize = y + 1;
                while row < VISIBLE_HEIGHT
                    invariant
                        y < row <= VISIBLE_HEIGHT,
                        self@ == (GameModel { board: board_rows(self.board), ..g0 }),
                        forall|i: int| 0 <= i < y ==> #[trigger] self.board@[i] == b1@[i],
                        forall|i: int| y <= i < row - 1 ==> #[trigger] self.board@[i] == b1@[i + 1],
                        forall|i: int|
                            row - 1 <= i < VISIBLE_HEIGHT ==> #[trigger] self.board@[i] == b1@[i],
                    decreases VISIBLE_HEIGHT - row,
                {
                    self.board[row - 1] = self.board[row];
                    row = row + 1;
                }
                self.board[VISIBLE_HEIGHT - 1] = [Cell::Empty; BOARD_WIDTH];
                assert([Cell::Empty; BOARD_WIDTH]@ =~= empty_row());
                lines = lines + 1;
                proof {
                    assert(kept_rows(o, p + 1) == kept_rows(o, p));
                    p = p + 1;
                    lemma_kept_len(o, p);
                    let n = kept_rows(o, p).len();
                    assert forall|j: int| 0 <= j < VISIBLE_HEIGHT - p implies #[trigger] self.board@[n
                        + j]@ == o[p + j] by {
                        assert(self.board@[n + j] == b1@[n + j + 1]);
                        assert(b1@[n + (j + 1)]@ == o[p - 1 + (j + 1)]);
                    }
                    assert forall|i: int|
                        VISIBLE_HEIGHT - lines <= i < VISIBLE_HEIGHT implies #[trigger] self.board@[i]@
                            == empty_row() by {
                        if i < VISIBLE_HEIGHT - 1 {
                            assert(self.board@[i] == b1@[i + 1]);
                        }
                    }
                }
            } else {
                proof {
                    if p < VISIBLE_HEIGHT {
                        assert(self.board@[kept_rows(o, p).len() + 0int]@ == o[p + 0int]);
                        assert(self.board@[y as int]@ == o[p as int]);
                        assert(kept_rows(o, p + 1) == kept_rows(o, p).push(o[p as int]));
                        p = p + 1;
                        lemma_kept_len(o, p);
                        let n = kept_rows(o, p).len();
                        assert forall|j: int| 0 <= j < VISIBLE_HEIGHT - p implies #[trigger] self.board@[n
                            + j]@ == o[p + j] by {
                            assert(self.board@[(n - 1) + (j + 1)]@ == o[(p - 1) + (j + 1)]);
                        }
                    }
                }
                y = y + 1;
            }
        }
        proof {
            assert(p == VISIBLE_HEIGHT);
            let kept = kept_rows(o, p);
            assert(board_rows(self.board) =~= cleared_rows(o)) by {
                assert forall|i: int| 0 <= i < VISIBLE_HEIGHT implies #[trigger] board_rows(
                    self.board,
                )[i] == cleared_rows(o)[i] by {
                    if i < kept.len() {
                        assert(self.board@[i]@ == kept[i]);
                    } else {
                        assert(self.board@[i]@ == empty_row());
                    }
                }
            }
        }
        if lines > 0 {
            self.lines_cleared = self.lines_cleared + lines;
            // Scoring: 1=100, 2=300, 3=500, 4=800 * level
            let base: u32 = match lines {
                1 => 100,
                2 => 300,
                3 => 500,
                _ => 800,
            };
            self.score = self.score + base * self.level;
            self.level = (self.lines_cleared / 10) + 1;
        }
    }

    /// Try to move the active piece by (dx, dy). Returns true if successful.
    pub fn try_move(&mut self, dx: i32, dy: i32) -> (r: bool)
        requires
            move_ok(old(self)@, dx as int, dy as int),
        ensures
            r == move_succeeds(old(self)@, dx as int, dy as int),
            final(self)@ == move_model(old(self)@, dx as int, dy as int),
    {
        let piece = match self.active_piece {
            Some(p) => p,
            None => return false,
        };
        let mut test = piece;
        test.x = test.x + dx;
        test.y = test.y + dy;
        if self.is_valid_position(&test) {
            self.active_piece = Some(test);
            proof {
                lemma_fit_down(self@.board, test.kind, test.rotation, test.x as int, test.y as int);
            }
            if dy < 0 && self.is_on_ground(&test) {
                self.timer_resets.lock_delay = true;
                self.lock_resets = 0;
            }
            return true;
        }
        false
    }

    /// Try to rotate the active piece. direction: 1 = clockwise, -1 = counter-clockwise.
    pub fn try_rotate(&mut self, direction: i32) -> (r: bool)
        requires
            rotate_ok(old(self)@, direction),
        ensures
            r == rotate_succeeds(old(self)@, direction),
            final(self)@ == rotate_model(old(self)@, direction),
    {
        let piece = match self.active_piece {
            Some(p) => p,
            None => return false,
        };
        let old_rot = piece.rotation;
        let new_rot = rem_euclid4(old_rot as i32 + direction) as usize;
        if piece.kind == TetrominoType::O {
            return false;  // O doesn't rotate
        }
        let kick_idx = if direction == 1 {
            old_rot * 2
        } else {
            old_rot * 2 + 7
        } % 8;
        let kicks = if piece.kind == TetrominoType::I {
            wall_kick_i(kick_idx)
        } else {
            wall_kick_jlstz(kick_idx)
        };
        assert(kicks@ == kick_offsets(piece, direction));
        let ghost g0 = self@;
        let mut j: usize = 0;
        while j < 5
            invariant
                0 <= j <= 5,
                g0 == old(self)@,
                self@ == g0,
                g0.active_piece == Some(piece),
                piece.kind != TetrominoType::O,
                new_rot == new_rotation(piece, direction),
                kicks@ == kick_offsets(piece, direction),
                rotate_ok(g0, direction),
                forall|i: int| 0 <= i < j ==> !kick_valid(g0.board, piece, direction, i),
                first_kick(g0.board, piece, direction, 0) == first_kick(
                    g0.board,
                    piece,
                    direction,
                    j as nat,
                ),
            decreases 5 - j,
        {
            let (kx, ky) = kicks[j];
            assert(kick_fits(piece, direction, j as int));
            let mut test = piece;
            test.rotation = new_rot;
            test.x = test.x + kx;
            test.y = test.y + ky;
            assert(test == kick_piece(piece, direction, j as int));
            if self.is_valid_position(&test) {
                self.active_piece = Some(test);
                proof {
                    lemma_fit_down(
                        self@.board,
                        test.kind,
                        test.rotation,
                        test.x as int,
                        test.y as int,
                    );
                }
                if self.is_on_ground(&test) && self.lock_resets < 15 {
                    self.timer_resets.lock_delay = true;
                    self.lock_resets = self.lock_resets + 1;
                }
                return true;
            }
            j = j + 1;
        }
        false
    }

    /// Hold the current piece (swap with held piece or store it).
    pub fn hold(&mut self)
        ensures
            final(self)@ == hold_model(old(self)@),
    {
        if self.game_over || self.paused {
            return ;
        }
        if let Some(piece) = self.active_piece.take() {
            match self.hold_piece {
                Some(kind) => {
                    self.hold_piece = Some(piece.kind);
                    let np = Piece::new(kind, BOARD_WIDTH as i32 / 2 - 1, 19);
                    self.active_piece = Some(np);
                    if !self.is_valid_position(&np) {
                        self.game_over = true;
                    }
                },
                None => {
                    self.hold_piece = Some(piece.kind);
                    self.spawn_piece();
                },
            }
        }
    }

    /// Hard drop: move piece to bottom and lock immediately.
    pub fn hard_drop(&mut self)
        requires
            hard_drop_ok(old(self)@),
        ensures
            final(self)@ == hard_drop_model(old(self)@),
    {
        if self.game_over || self.paused {
            return ;
        }
        let ghost g0 = self@;
        loop
            invariant
                g0 == old(self)@,
                !g0.game_over && !g0.paused,
                move_ok(self@, 0, -1),
                lock_ok(dropped_model(g0)),
                match g0.active_piece {
                    None => self@ == g0,
                    Some(p) => self@.active_piece matches Some(q) && q.kind == p.kind
                        && q.rotation == p.rotation && q.x == p.x && q.y <= p.y && (forall|k: int|
                        q.y <= k < p.y ==> valid_at(g0.board, p.kind, p.rotation, p.x as int, k))
                        && if q.y < p.y && on_ground(g0.board, q) {
                        self@ == (GameModel {
                            active_piece: Some(q),
                            lock_resets: 0,
                            timer_resets: TimerResets { lock_delay: true, ..g0.timer_resets },
                            ..g0
                        })
                    } else {
                        self@ == (GameModel { active_piece: Some(q), ..g0 })
                    },
                },
            ensures
                self@ == dropped_model(g0),
            decreases
                    match self.active_piece {
                        Some(q) => q.y + 3,
                        None => 0,
                    },
        {
            let ghost before = self@;
            if !self.try_move(0, -1) {
                proof {
                    if let Some(p) = g0.active_piece {
                        let q = before.active_piece.unwrap();
                        assert(is_landing(g0.board, p, q.y as int));
                        lemma_landing_unique(g0.board, p, q.y as int, landing(g0.board, p));
                    }
                }
                break ;
            }
            proof {
                let p = g0.active_piece.unwrap();
                let q = self@.active_piece.unwrap();
                lemma_valid_bounds(g0.board, p.kind, p.rotation, p.x as int, q.y as int);
                lemma_fit_down(g0.board, q.kind, q.rotation, q.x as int, q.y as int);
            }
        }
        self.lock_piece();
    }

    /// Handle key press events.
    pub fn on_key(&mut self, key: TetrisKey, pressed: bool)
        requires
            key_ok(old(self)@, key, pressed),
        ensures
            final(self)@ == key_model(old(self)@, key, pressed),
    {
        if self.game_over || self.paused {
            return ;
        }
        if pressed {
            match key {
                TetrisKey::Left => {
                    self.try_move(-1, 0);
                    self.das_direction = -1;
                    self.timer_resets.das = true;
                },
                TetrisKey::Right => {
                    self.try_move(1, 0);
                    self.das_direction = 1;
                    self.timer_resets.das = true;
                },
                TetrisKey::Down => {
                    self.timer_resets.soft_drop = true;
                    self.try_move(0, -1);
                },
                TetrisKey::Up | TetrisKey::X => {
                    self.try_rotate(1);
                },
                TetrisKey::Z => {
                    self.try_rotate(-1);
                },
                TetrisKey::Space => {
                    self.hard_drop();
                },
                TetrisKey::C | TetrisKey::ShiftLeft | TetrisKey::ShiftRight => {
                    self.hold();
                },
                _ => {},
            }
        } else {
            match key {
                TetrisKey::Left | TetrisKey::Right => {
                    self.das_direction = 0;
                },
                _ => {},
            }
        }
    }

    /// One gravity step of the game loop: the piece moves down a row; when it cannot,
    /// it locks where it stands. Returns whether the piece moved.
    pub fn fall_step(&mut self) -> (moved: bool)
        requires
            fall_step_ok(old(self)@),
        ensures
            moved == (!(old(self)@.game_over || old(self)@.paused) && move_succeeds(
                old(self)@,
                0,
                -1,
            )),
            final(self)@ == fall_step_model(old(self)@),
    {
        if self.game_over || self.paused || self.active_piece.is_none() {
            return false;
        }
        if self.try_move(0, -1) {
            true
        } else {
            self.lock_piece();
            false
        }
    }

    /// Auto-shift while a direction is held: `Some(n)` tries `n` shifts by the held
    /// direction; `None` (instant repeat) shifts until the piece is blocked.
    pub fn auto_shift(&mut self, repeats: Option<u32>)
        requires
            shift_ok(old(self)@),
        ensures
            shift_idle(old(self)@) ==> final(self)@ == old(self)@,
            !shift_idle(old(self)@) ==> match repeats {
                Some(n) => final(self)@ == shifted(
                    old(self)@,
                    old(self)@.das_direction as int,
                    n as nat,
                ),
                None => exists|k: nat|
                    final(self)@ == shifted(old(self)@, old(self)@.das_direction as int, k)
                        && !move_succeeds(final(self)@, old(self)@.das_direction as int, 0),
            },
    {
        if self.game_over || self.paused || self.das_direction == 0 {
            return ;
        }
        let dir = self.das_direction;
        let ghost g0 = self@;
        match repeats {
            Some(n) => {
                let mut i: u32 = 0;
                while i < n
                    invariant
                        i <= n,
                        dir == g0.das_direction,
                        -1 <= dir <= 1,
                        self@ == shifted(g0, dir as int, i as nat),
                        move_ok(self@, dir as int, 0),
                    decreases n - i,
                {
                    let ghost before = self@;
                    let moved = self.try_move(dir, 0);
                    proof {
                        if moved {
                            let t = self@.active_piece.unwrap();
                            lemma_shift_fits(self@.board, t, dir as int);
                        } else {
                            lemma_failed_move_keeps(before, dir as int, 0);
                        }
                    }
                    i = i + 1;
                }
            },
            None => {
                let ghost mut k: nat = 0;
                loop
                    invariant
                        dir == g0.das_direction,
                        -1 <= dir <= 1,
                        dir != 0,
                        self@ == shifted(g0, dir as int, k),
                        move_ok(self@, dir as int, 0),
                    ensures
                        self@ == shifted(g0, dir as int, k),
                        !move_succeeds(self@, dir as int, 0),
                    decreases
                            match self.active_piece {
                                Some(q) => if dir == 1 {
                                    i32::MAX - q.x
                                } else {
                                    q.x - i32::MIN
                                },
                                None => 0,
                            },
                {
                    let ghost before = self@;
                    let moved = self.try_move(dir, 0);
                    if !moved {
                        proof {
                            lemma_failed_move_keeps(before, dir as int, 0);
                            k = k + 1;
                        }
                        break ;
                    }
                    proof {
                        let t = self@.active_piece.unwrap();
                        lemma_shift_fits(self@.board, t, dir as int);
                        k = k + 1;
                    }
                }
            },
        }
    }

    /// Ghost piece Y position (where the active piece would land).
    pub fn ghost_y(&self) -> (r: Option<i32>)
        requires
            move_ok(self@, 0, -1),
        ensures
            match self.active_piece {
                None => r is None,
                Some(p) => r matches Some(y) && is_landing(self@.board, p, y as int),
            },
    {
        let piece = match self.active_piece {
            Some(p) => p,
            None => return None,
        };
        let mut ghost = piece;
        loop
            invariant
                self.active_piece == Some(piece),
                ghost.kind == piece.kind,
                ghost.rotation == piece.rotation,
                ghost.x == piece.x,
                ghost.y <= piece.y,
                move_fits(ghost, 0, -1),
                forall|k: int|
                    ghost.y <= k < piece.y ==> valid_at(
                        self@.board,
                        piece.kind,
                        piece.rotation,
                        piece.x as int,
                        k,
                    ),
            ensures
                ghost.x == piece.x,
                ghost.y <= piece.y,
                forall|k: int|
                    ghost.y <= k < piece.y ==> valid_at(
                        self@.board,
                        piece.kind,
                        piece.rotation,
                        piece.x as int,
                        k,
                    ),
                !valid_at(self@.board, piece.kind, piece.rotation, piece.x as int, ghost.y - 1),
            decreases ghost.y + 3,
        {
            let mut t = ghost;
            t.y = t.y - 1;
            if !self.is_valid_position(&t) {
                break ;
            }
            proof {
                lemma_valid_bounds(self@.board, t.kind, t.rotation, t.x as int, t.y as int);
                lemma_fit_down(self@.board, t.kind, t.rotation, t.x as int, t.y as int);
            }
            ghost.y = ghost.y - 1;
        }
        Some(ghost.y)
    }
}
} // verus!
