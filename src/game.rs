//! The board engine: grid state, the two-phase selection protocol, captures
//! and forced turn skips.
use vstd::prelude::*;

verus! {

/// Side length of the square board.
pub const SIZE: i16 = 7;

#[derive(Clone, Copy, PartialEq, Eq, Structural, Debug)]
pub enum CellType {
    Empty,
    /// First player.
    Blue,
    /// Second player.
    Red,
    /// Permanently inert cell.
    Solid,
}

/// A cell coordinate `(x, y)`; the grid is indexed as `board[x][y]`.
pub type Position = (i16, i16);

/// The live game state. `p1_turn` is true while Blue is to move.
#[derive(Clone, Copy, Debug)]
pub struct Ataxx {
    pub width: i16,
    pub height: i16,
    pub board: [[CellType; 7]; 7],
    pub p1_turn: bool,
    pub selected_piece: Option<Position>,
}

/// Mathematical model of a game state.
pub struct BoardView {
    pub grid: Seq<Seq<CellType>>,
    pub p1_turn: bool,
    pub selected: Option<Position>,
}

pub open spec fn in_bounds(x: int, y: int) -> bool {
    0 <= x < SIZE && 0 <= y < SIZE
}

pub open spec fn abs(a: int) -> int {
    if a < 0 {
        -a
    } else {
        a
    }
}

/// Chebyshev distance between `(ax, ay)` and `(bx, by)`.
pub open spec fn distance(ax: int, ay: int, bx: int, by: int) -> int {
    if abs(bx - ax) < abs(by - ay) {
        abs(by - ay)
    } else {
        abs(bx - ax)
    }
}

/// The color of the player to move.
pub open spec fn player_color(p1_turn: bool) -> CellType {
    if p1_turn {
        CellType::Blue
    } else {
        CellType::Red
    }
}

/// The color of the player waiting for their turn.
pub open spec fn opponent_color(p1_turn: bool) -> CellType {
    player_color(!p1_turn)
}

/// A piece of color `c` at `(x, y)` can reach the empty cell `(i, j)`.
pub open spec fn reaches_empty(g: Seq<Seq<CellType>>, c: CellType, x: int, y: int, i: int, j: int) -> bool {
    &&& in_bounds(x, y)
    &&& in_bounds(i, j)
    &&& g[x][y] == c
    &&& g[i][j] == CellType::Empty
    &&& distance(x, y, i, j) <= 2
}

/// Color `c` has at least one legal move on `g`.
pub open spec fn has_move(g: Seq<Seq<CellType>>, c: CellType) -> bool {
    exists|x: int, y: int, i: int, j: int| #[trigger] reaches_empty(g, c, x, y, i, j)
}

/// What cell `(x, y)` holds after `mover` moves from `from` to `to` on `g`:
/// the destination takes the mover's color, a jump empties the source, and
/// every `enemy` piece adjacent to the destination is converted.
pub open spec fn placed_cell(
    g: Seq<Seq<CellType>>,
    from: Position,
    to: Position,
    mover: CellType,
    enemy: CellType,
    x: int,
    y: int,
) -> CellType {
    if x == to.0 && y == to.1 {
        mover
    } else if distance(from.0 as int, from.1 as int, to.0 as int, to.1 as int) != 1 && x == from.0
        && y == from.1 {
        CellType::Empty
    } else if distance(x, y, to.0 as int, to.1 as int) <= 1 && g[x][y] == enemy {
        mover
    } else {
        g[x][y]
    }
}

pub open spec fn placed_grid(
    g: Seq<Seq<CellType>>,
    from: Position,
    to: Position,
    mover: CellType,
    enemy: CellType,
) -> Seq<Seq<CellType>> {
    Seq::new(7, |x: int| Seq::new(7, |y: int| placed_cell(g, from, to, mover, enemy, x, y)))
}

/// The starting layout.
pub open spec fn seed_cell(x: int, y: int) -> CellType {
    if (x == 0 && y == 0) || (x == 6 && y == 6) {
        CellType::Blue
    } else if (x == 6 && y == 0) || (x == 0 && y == 6) {
        CellType::Red
    } else if x == 3 && y == 3 {
        CellType::Solid
    } else {
        CellType::Empty
    }
}

pub open spec fn seed_grid() -> Seq<Seq<CellType>> {
    Seq::new(7, |x: int| Seq::new(7, |y: int| seed_cell(x, y)))
}

/// Number of cells of `r` holding `c`.
pub open spec fn count_row(r: Seq<CellType>, c: CellType) -> nat
    decreases r.len(),
{
    if r.len() == 0 {
        0
    } else {
        count_row(r.drop_last(), c) + if r.last() == c {
            1nat
        } else {
            0nat
        }
    }
}

/// Number of cells of `g` holding `c`.
pub open spec fn count_grid(g: Seq<Seq<CellType>>, c: CellType) -> nat
    decreases g.len(),
{
    if g.len() == 0 {
        0
    } else {
        count_grid(g.drop_last(), c) + count_row(g.last(), c)
    }
}

impl BoardView {
    pub open spec fn cell(self, p: Position) -> CellType {
        self.grid[p.0 as int][p.1 as int]
    }

    /// Completes a move of the active player from `from` to `to`, then passes
    /// the turn unless the opponent has no legal move left.
    pub open spec fn place(self, from: Position, to: Position) -> BoardView {
        let g = placed_grid(self.grid, from, to, player_color(self.p1_turn), opponent_color(self.p1_turn));
        BoardView {
            grid: g,
            p1_turn: if has_move(g, opponent_color(self.p1_turn)) {
                !self.p1_turn
            } else {
                self.p1_turn
            },
            selected: None,
        }
    }

    /// The two-phase selection protocol.
    pub open spec fn select(self, pos: Position) -> BoardView {
        match self.selected {
            None => BoardView {
                grid: self.grid,
                p1_turn: self.p1_turn,
                selected: if in_bounds(pos.0 as int, pos.1 as int) && self.cell(pos) == player_color(self.p1_turn) {
                    Some(pos)
                } else {
                    None
                },
            },
            Some(from) => if in_bounds(pos.0 as int, pos.1 as int) && self.cell(pos) == CellType::Empty
                && distance(from.0 as int, from.1 as int, pos.0 as int, pos.1 as int) <= 2 {
                self.place(from, pos)
            } else {
                BoardView { grid: self.grid, p1_turn: self.p1_turn, selected: None }
            },
        }
    }
}

impl View for Ataxx {
    type V = BoardView;

    open spec fn view(&self) -> BoardView {
        BoardView {
            grid: Seq::new(7, |x: int| Seq::new(7, |y: int| self.board@[x]@[y])),
            p1_turn: self.p1_turn,
            selected: self.selected_piece,
        }
    }
}

impl Ataxx {
    /// Fixed dimensions, and a pending selection names a piece of the player to move.
    pub open spec fn wf(&self) -> bool {
        &&& self.width == SIZE
        &&& self.height == SIZE
        &&& match self.selected_piece {
            Some(p) => in_bounds(p.0 as int, p.1 as int) && self@.cell(p) == player_color(self.p1_turn),
            None => true,
        }
    }

    pub fn new() -> (r: Ataxx)
        ensures
            r.wf(),
            r@.grid == seed_grid(),
            r.p1_turn,
            r.selected_piece is None,
    {
        let mut ataxx = Ataxx {
            width: SIZE,
            height: SIZE,
            board: [[CellType::Empty; 7]; 7],
            p1_turn: true,
            selected_piece: None,
        };
        ataxx.reset();
        ataxx
    }

    /// Puts the seed layout back on the board and drops any pending selection;
    /// whose turn it is stays as it was.
    pub fn reset(&mut self)
        ensures
            final(self).width == old(self).width,
            final(self).height == old(self).height,
            final(self).p1_turn == old(self).p1_turn,
            final(self).selected_piece is None,
            final(self)@.grid == seed_grid(),
    {
        self.board = [[CellType::Empty; 7]; 7];
        self.board[0][0] = CellType::Blue;
        self.board[6][6] = CellType::Blue;
        self.board[6][0] = CellType::Red;
        self.board[0][6] = CellType::Red;
        self.board[3][3] = CellType::Solid;
        self.selected_piece = None;
        assert(self@.grid =~~= seed_grid());
    }

    /// The single mutating entry point: the two-phase selection protocol.
    /// With nothing pending, a piece of the player to move becomes the pending
    /// selection and anything else clears it. With a selection pending, an
    /// empty in-range cell within distance 2 completes the move; anything else
    /// clears the selection.
    pub fn select_cell(&mut self, selection: Position)
        requires
            old(self).wf(),
        ensures
            final(self).wf(),
            final(self)@ == old(self)@.select(selection),
    {
        let (x, y) = selection;
        if self.selected_piece.is_none() {
            if x < 0 || x >= self.width || y < 0 || y >= self.height {
                self.selected_piece = None;
                return ;
            }
            match (self.board[x as usize][y as usize], self.p1_turn) {
                (CellType::Blue, true) => self.selected_piece = Some(selection),
                (CellType::Red, false) => self.selected_piece = Some(selection),
                _ => self.selected_piece = None,
            }
        } else {
            if x < 0 || x >= self.width || y < 0 || y >= self.height {
                self.selected_piece = None;
                return ;
            }
            if self.board[x as usize][y as usize] != CellType::Empty {
                self.selected_piece = None;
                return ;
            }
            let previous = self.selected_piece.unwrap();
            let dx: i16 = if x < previous.0 {
                previous.0 - x
            } else {
                x - previous.0
            };
            let dy: i16 = if y < previous.1 {
                previous.1 - y
            } else {
                y - previous.1
            };
            let dist: i16 = if dx < dy {
                dy
            } else {
                dx
            };
            if dist > 2 {
                self.selected_piece = None;
                return ;
            }
            self.place_piece(selection, dist == 1);
        }
    }

    /// Moves the pending piece to `to` (a copy when `dupe`), converts the
    /// adjacent enemy pieces, and hands the turn over unless the opponent
    /// is left without a move.
    fn place_piece(&mut self, to: Position, dupe: bool)
        requires
            old(self).wf(),
            old(self).selected_piece is Some,
            in_bounds(to.0 as int, to.1 as int),
            old(self)@.cell(to) == CellType::Empty,
            ({
                let from = old(self).selected_piece.unwrap();
                &&& distance(from.0 as int, from.1 as int, to.0 as int, to.1 as int) <= 2
                &&& dupe == (distance(from.0 as int, from.1 as int, to.0 as int, to.1 as int) == 1)
            }),
        ensures
            final(self).wf(),
            final(self)@ == old(self)@.place(old(self).selected_piece.unwrap(), to),
    {
        let ghost g_old = self@.grid;
        let from = self.selected_piece.unwrap();
        let color = if self.p1_turn {
            CellType::Blue
        } else {
            CellType::Red
        };
        let color_enemy = if color == CellType::Red {
            CellType::Blue
        } else {
            CellType::Red
        };
        self.board[to.0 as usize][to.1 as usize] = color;
        if !dupe {
            self.board[from.0 as usize][from.1 as usize] = CellType::Empty;
        }
        let ghost g_mid = self@.grid;
        self.flip_neighbors(to, color, color_enemy);
        let ghost g_new = placed_grid(g_old, from, to, color, color_enemy);
        assert forall|a: int, b: int| 0 <= a < 7 && 0 <= b < 7 implies self@.grid[a][b] == g_new[a][b] by {
            assert(g_mid[a][b] == self.board@[a]@[b] || distance(a, b, to.0 as int, to.1 as int) <= 1);
        }
        assert(self@.grid =~~= g_new);
        if !self.skip_turn() {
            self.p1_turn = !self.p1_turn;
        }
        self.selected_piece = None;
        assert(self@.grid =~~= g_new);
    }

    /// Converts every `enemy` piece in the 3 by 3 block around `to` to `color`.
    /// Columns are bounded by `width` and rows by `height`.
    fn flip_neighbors(&mut self, to: Position, color: CellType, enemy: CellType)
        requires
            old(self).width == SIZE,
            old(self).height == SIZE,
            in_bounds(to.0 as int, to.1 as int),
        ensures
            final(self).width == SIZE,
            final(self).height == SIZE,
            final(self).p1_turn == old(self).p1_turn,
            final(self).selected_piece == old(self).selected_piece,
            forall|a: int, b: int|
                in_bounds(a, b) ==> #[trigger] final(self).board@[a]@[b] == if distance(a, b, to.0 as int, to.1 as int) <= 1
                    && old(self).board@[a]@[b] == enemy {
                    color
                } else {
                    old(self).board@[a]@[b]
                },
    {
        let ghost g0 = self.board;
        let mut i: i16 = -1;
        while i < 2
            invariant
                -1 <= i <= 2,
                self.width == SIZE,
                self.height == SIZE,
                self.p1_turn == old(self).p1_turn,
                self.selected_piece == old(self).selected_piece,
                g0 == old(self).board,
                in_bounds(to.0 as int, to.1 as int),
                forall|a: int, b: int|
                    in_bounds(a, b) ==> #[trigger] self.board@[a]@[b] == if distance(a, b, to.0 as int, to.1 as int) <= 1
                        && a - to.0 < i && g0@[a]@[b] == enemy {
                        color
                    } else {
                        g0@[a]@[b]
                    },
            decreases 2 - i,
        {
            let mut j: i16 = -1;
            while j < 2
                invariant
                    -1 <= i < 2,
                    -1 <= j <= 2,
                    self.width == SIZE,
                    self.height == SIZE,
                    self.p1_turn == old(self).p1_turn,
                    self.selected_piece == old(self).selected_piece,
                    g0 == old(self).board,
                    in_bounds(to.0 as int, to.1 as int),
                    forall|a: int, b: int|
                        in_bounds(a, b) ==> #[trigger] self.board@[a]@[b] == if distance(a, b, to.0 as int, to.1 as int) <= 1
                            && (a - to.0 < i || (a - to.0 == i && b - to.1 < j)) && g0@[a]@[b] == enemy {
                            color
                        } else {
                            g0@[a]@[b]
                        },
                decreases 2 - j,
            {
                let nx = to.0 + i;
                let ny = to.1 + j;
                if nx >= 0 && ny >= 0 && nx < self.width && ny < self.height {
                    if self.board[nx as usize][ny as usize] == enemy {
                        self.board[nx as usize][ny as usize] = color;
                    }
                }
                j += 1;
            }
            i += 1;
        }
    }

    /// True when the player waiting for their turn has no legal move: no piece
    /// of theirs has an empty cell within distance 2 anywhere on the board.
    fn skip_turn(&self) -> (r: bool)
        requires
            self.width == SIZE,
            self.height == SIZE,
        ensures
            r == !has_move(self@.grid, opponent_color(self.p1_turn)),
    {
        let ghost g = self@.grid;
        let color = if self.p1_turn {
            CellType::Red
        } else {
            CellType::Blue
        };
        let mut x: i16 = 0;
        while x < self.width
            invariant
                0 <= x <= SIZE,
                self.width == SIZE,
                self.height == SIZE,
                g == self@.grid,
                color == opponent_color(self.p1_turn),
                forall|a: int, b: int, i: int, j: int|
                    a < x ==> !#[trigger] reaches_empty(g, color, a, b, i, j),
            decreases SIZE - x,
        {
            let mut y: i16 = 0;
            while y < self.height
                invariant
                    0 <= x < SIZE,
                    0 <= y <= SIZE,
                    self.width == SIZE,
                    self.height == SIZE,
                    g == self@.grid,
                    color == opponent_color(self.p1_turn),
                    forall|a: int, b: int, i: int, j: int|
                        (a < x || (a == x && b < y)) ==> !#[trigger] reaches_empty(g, color, a, b, i, j),
                decreases SIZE - y,
            {
                if self.board[x as usize][y as usize] == color {
                    let mut dx: i16 = -2;
                    while dx < 3
                        invariant
                            0 <= x < SIZE,
                            0 <= y < SIZE,
                            -2 <= dx <= 3,
                            self.board@[x as int]@[y as int] == color,
                            self.width == SIZE,
                            self.height == SIZE,
                            g == self@.grid,
                            color == opponent_color(self.p1_turn),
                            forall|a: int, b: int, i: int, j: int|
                                (a < x || (a == x && b < y) || (a == x && b == y && i - x < dx))
                                    ==> !#[trigger] reaches_empty(g, color, a, b, i, j),
                        decreases 3 - dx,
                    {
                        let mut dy: i16 = -2;
                        while dy < 3
                            invariant
                                0 <= x < SIZE,
                                0 <= y < SIZE,
                                -2 <= dx < 3,
                                -2 <= dy <= 3,
                                self.board@[x as int]@[y as int] == color,
                                self.width == SIZE,
                                self.height == SIZE,
                                g == self@.grid,
                                color == opponent_color(self.p1_turn),
                                forall|a: int, b: int, i: int, j: int|
                                    (a < x || (a == x && b < y) || (a == x && b == y && i - x < dx) || (a
                                        == x && b == y && i - x == dx && j - y < dy))
                                        ==> !#[trigger] reaches_empty(g, color, a, b, i, j),
                            decreases 3 - dy,
                        {
                            let nx = x + dx;
                            let ny = y + dy;
                            if nx >= 0 && ny >= 0 && nx < self.width && ny < self.height {
                                if self.board[nx as usize][ny as usize] == CellType::Empty {
                                    assert(reaches_empty(g, color, x as int, y as int, nx as int, ny as int));
                                    return false;
                                }
                            }
                            dy += 1;
                        }
                        dx += 1;
                    }
                }
                y += 1;
            }
            x += 1;
        }
        true
    }

    /// How many cells hold `c`.
    pub fn count_cells(&self, c: CellType) -> (r: u32)
        requires
            self.width == SIZE,
            self.height == SIZE,
        ensures
            r == count_grid(self@.grid, c),
            r <= 49,
    {
        let ghost g = self@.grid;
        let mut r: u32 = 0;
        let mut x: i16 = 0;
        while x < self.width
            invariant
                0 <= x <= SIZE,
                self.width == SIZE,
                self.height == SIZE,
                g == self@.grid,
                r == count_grid(g.take(x as int), c),
                r <= 7 * x,
            decreases SIZE - x,
        {
            let mut y: i16 = 0;
            while y < self.height
                invariant
                    0 <= x < SIZE,
                    0 <= y <= SIZE,
                    self.width == SIZE,
                    self.height == SIZE,
                    g == self@.grid,
                    r == count_grid(g.take(x as int), c) + count_row(g[x as int].take(y as int), c),
                    r <= 7 * x + y,
                decreases SIZE - y,
            {
                assert(g[x as int].take(y + 1).drop_last() =~= g[x as int].take(y as int));
                if self.board[x as usize][y as usize] == c {
                    r += 1;
                }
                y += 1;
            }
            assert(g[x as int].take(7) =~= g[x as int]);
            assert(g.take(x + 1).drop_last() =~= g.take(x as int));
            x += 1;
        }
        assert(g.take(7) =~= g);
        r
    }
}

/// `r` has seven cells; its count of `c` is the sum over them.
proof fn lemma_count_row_seven(r: Seq<CellType>, c: CellType)
    requires
        r.len() == 7,
    ensures
        count_row(r, c) == (if r[0] == c { 1int } else { 0 }) + (if r[1] == c { 1int } else { 0 }) + (
        if r[2] == c { 1int } else { 0 }) + (if r[3] == c { 1int } else { 0 }) + (if r[4] == c {
            1int
        } else {
            0
        }) + (if r[5] == c { 1int } else { 0 }) + (if r[6] == c { 1int } else { 0 }),
{
    reveal_with_fuel(count_row, 8);
    assert(r.drop_last().drop_last().drop_last().drop_last().drop_last().drop_last().drop_last().len()
        == 0);
}

/// `g` has seven rows; its count of `c` is the sum over them.
proof fn lemma_count_grid_seven(g: Seq<Seq<CellType>>, c: CellType)
    requires
        g.len() == 7,
    ensures
        count_grid(g, c) == count_row(g[0], c) + count_row(g[1], c) + count_row(g[2], c) + count_row(
            g[3],
            c,
        ) + count_row(g[4], c) + count_row(g[5], c) + count_row(g[6], c),
{
    reveal_with_fuel(count_grid, 8);
    assert(g.drop_last().drop_last().drop_last().drop_last().drop_last().drop_last().drop_last().len()
        == 0);
}

/// The seed layout holds two Blue pieces, two Red pieces, one Solid cell and
/// 44 empty cells; Blue owns one diagonal's corners, Red the other's, and the
/// Solid cell is the center.
pub proof fn lemma_seed_layout()
    ensures
        count_grid(seed_grid(), CellType::Blue) == 2,
        count_grid(seed_grid(), CellType::Red) == 2,
        count_grid(seed_grid(), CellType::Solid) == 1,
        count_grid(seed_grid(), CellType::Empty) == 44,
        seed_grid()[0][0] == CellType::Blue,
        seed_grid()[6][6] == CellType::Blue,
        seed_grid()[6][0] == CellType::Red,
        seed_grid()[0][6] == CellType::Red,
        seed_grid()[3][3] == CellType::Solid,
{
    let g = seed_grid();
    lemma_count_grid_seven(g, CellType::Blue);
    lemma_count_grid_seven(g, CellType::Red);
    lemma_count_grid_seven(g, CellType::Solid);
    lemma_count_grid_seven(g, CellType::Empty);
    assert forall|x: int, c: CellType| 0 <= x < 7 implies #[trigger] count_row(g[x], c) == (if g[x][0]
        == c { 1int } else { 0 }) + (if g[x][1] == c { 1int } else { 0 }) + (if g[x][2] == c {
        1int
    } else {
        0
    }) + (if g[x][3] == c { 1int } else { 0 }) + (if g[x][4] == c { 1int } else { 0 }) + (if g[x][5]
        == c { 1int } else { 0 }) + (if g[x][6] == c { 1int } else { 0 }) by {
        lemma_count_row_seven(g[x], c);
    }
}

/// With nothing pending, picking a cell that is not the mover's own piece
/// leaves the grid as it was and nothing selected.
pub proof fn lemma_first_pick_of_other_cell(v: BoardView, pos: Position)
    requires
        v.selected is None,
        !(in_bounds(pos.0 as int, pos.1 as int) && v.cell(pos) == player_color(v.p1_turn)),
    ensures
        v.select(pos).grid == v.grid,
        v.select(pos).selected is None,
{
}

/// A destination farther than two cells from the pending piece changes
/// nothing on the grid and drops the selection.
pub proof fn lemma_out_of_reach(v: BoardView, pos: Position)
    requires
        v.selected is Some,
        distance(
            v.selected.unwrap().0 as int,
            v.selected.unwrap().1 as int,
            pos.0 as int,
            pos.1 as int,
        ) > 2,
    ensures
        v.select(pos).grid == v.grid,
        v.select(pos).selected is None,
        v.select(pos).p1_turn == v.p1_turn,
{
}

/// A completed move converts every opponent piece adjacent to its
/// destination to the mover's color.
pub proof fn lemma_capture(v: BoardView, pos: Position, b: Position)
    requires
        v.selected is Some,
        in_bounds(pos.0 as int, pos.1 as int),
        v.cell(pos) == CellType::Empty,
        distance(
            v.selected.unwrap().0 as int,
            v.selected.unwrap().1 as int,
            pos.0 as int,
            pos.1 as int,
        ) <= 2,
        in_bounds(b.0 as int, b.1 as int),
        distance(b.0 as int, b.1 as int, pos.0 as int, pos.1 as int) <= 1,
        v.cell(b) == opponent_color(v.p1_turn),
        v.cell(v.selected.unwrap()) == player_color(v.p1_turn),
    ensures
        v.select(pos).cell(b) == player_color(v.p1_turn),
{
}

/// A Solid cell stays Solid whatever is selected.
pub proof fn lemma_solid_stays(v: BoardView, pos: Position, b: Position)
    requires
        in_bounds(b.0 as int, b.1 as int),
        v.cell(b) == CellType::Solid,
        v.selected matches Some(p) ==> v.cell(p) == player_color(v.p1_turn),
    ensures
        v.select(pos).cell(b) == CellType::Solid,
{
}

/// After a completed move the mover keeps the turn exactly when the
/// opponent has no legal move left on the new grid.
pub proof fn lemma_skip_turn(v: BoardView, pos: Position)
    requires
        v.selected is Some,
        in_bounds(pos.0 as int, pos.1 as int),
        v.cell(pos) == CellType::Empty,
        distance(
            v.selected.unwrap().0 as int,
            v.selected.unwrap().1 as int,
            pos.0 as int,
            pos.1 as int,
        ) <= 2,
    ensures
        v.select(pos).p1_turn == v.p1_turn <==> !has_move(v.select(pos).grid, opponent_color(v.p1_turn)),
{
}

} // verus!
