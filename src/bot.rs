//! A one-ply opponent that always plays Red: it scores every legal move by
//! the number of Red cells it leaves and keeps the first best one.
use vstd::prelude::*;
use crate::game::{
    count_grid, has_move, reaches_empty, Ataxx, BoardView, CellType, Position, SIZE,
};

verus! {

/// A board coordinate as the bot reports it.
pub type Pos = (u8, u8);

/// A proposed move: its score, the piece to move and its destination.
pub type Mov = (i32, Pos, Pos);

pub struct Redesia {
    pub width: i16,
    pub height: i16,
    pub board: [[CellType; 7]; 7],
    /// Every candidate of the last search, in scan order.
    pub positions: Vec<Mov>,
}

pub open spec fn widen(p: Pos) -> Position {
    (p.0 as i16, p.1 as i16)
}

/// Moving the Red piece at `from` to `to` is legal on `g`.
pub open spec fn is_candidate(g: Seq<Seq<CellType>>, from: Pos, to: Pos) -> bool {
    reaches_empty(g, CellType::Red, from.0 as int, from.1 as int, to.0 as int, to.1 as int)
}

/// The place of a move in the scan order: source column, source row, then
/// the column and row offsets of the destination.
pub open spec fn scan_key(from: Pos, to: Pos) -> (int, int, int, int) {
    (from.0 as int, from.1 as int, to.0 - from.0, to.1 - from.1)
}

pub open spec fn lex_before(a: (int, int, int, int), b: (int, int, int, int)) -> bool {
    a.0 < b.0 || (a.0 == b.0 && (a.1 < b.1 || (a.1 == b.1 && (a.2 < b.2 || (a.2 == b.2 && a.3
        < b.3)))))
}

/// The move `(f1, t1)` is enumerated before `(f2, t2)`.
pub open spec fn precedes(f1: Pos, t1: Pos, f2: Pos, t2: Pos) -> bool {
    lex_before(scan_key(f1, t1), scan_key(f2, t2))
}

/// Red cells left after playing `from`, then `to`, through the selection protocol.
pub open spec fn move_score(s: BoardView, from: Position, to: Position) -> int {
    count_grid(s.select(from).select(to).grid, CellType::Red) as int
}

/// What the bot answers when Red has no legal move: positions off the board,
/// which the selection protocol ignores.
pub open spec fn no_move() -> Mov {
    (0, (7, 7), (7, 7))
}

/// `m` is the move the bot owes on `s`: the first, in scan order, of the
/// legal moves with the highest score; or `no_move()` when there is none.
pub open spec fn is_bot_choice(s: BoardView, m: Mov) -> bool {
    if has_move(s.grid, CellType::Red) {
        &&& is_candidate(s.grid, m.1, m.2)
        &&& m.0 == move_score(s, widen(m.1), widen(m.2))
        &&& forall|f: Pos, t: Pos| #[trigger]
            is_candidate(s.grid, f, t) ==> move_score(s, widen(f), widen(t)) <= m.0
        &&& forall|f: Pos, t: Pos| #[trigger]
            is_candidate(s.grid, f, t) && precedes(f, t, m.1, m.2) ==> move_score(
                s,
                widen(f),
                widen(t),
            ) < m.0
    } else {
        m == no_move()
    }
}

pub open spec fn listed(p: Seq<Mov>, f: Pos, t: Pos) -> bool {
    exists|k: int| 0 <= k < p.len() && p[k].1 == f && p[k].2 == t
}

/// `p` lists, in scan order and with their scores, exactly the legal moves
/// of `s` that come before the scan point `pt`.
pub open spec fn collected(p: Seq<Mov>, s: BoardView, pt: (int, int, int, int)) -> bool {
    &&& forall|k: int|
        0 <= k < p.len() ==> {
            &&& is_candidate(s.grid, #[trigger] p[k].1, p[k].2)
            &&& p[k].0 == move_score(s, widen(p[k].1), widen(p[k].2))
            &&& lex_before(scan_key(p[k].1, p[k].2), pt)
        }
    &&& forall|k1: int, k2: int|
        0 <= k1 < k2 < p.len() ==> precedes(#[trigger] p[k1].1, p[k1].2, #[trigger] p[k2].1, p[k2].2)
    &&& forall|f: Pos, t: Pos| #[trigger]
        is_candidate(s.grid, f, t) && lex_before(scan_key(f, t), pt) ==> listed(p, f, t)
}

/// A legal move of Red, found by `has_move`, as a pair of board coordinates.
proof fn lemma_candidate_exists(g: Seq<Seq<CellType>>)
    requires
        has_move(g, CellType::Red),
    ensures
        exists|f: Pos, t: Pos| #[trigger] is_candidate(g, f, t),
{
    let (x, y, i, j) = choose|x: int, y: int, i: int, j: int|
        #[trigger] reaches_empty(g, CellType::Red, x, y, i, j);
    let f: Pos = (x as u8, y as u8);
    let t: Pos = (i as u8, j as u8);
    assert(is_candidate(g, f, t));
}

/// The bot's answer is a function of the board: two moves that both meet
/// `is_bot_choice` on the same state are the same move.
pub proof fn lemma_bot_choice_unique(s: BoardView, m1: Mov, m2: Mov)
    requires
        is_bot_choice(s, m1),
        is_bot_choice(s, m2),
    ensures
        m1 == m2,
{
    if has_move(s.grid, CellType::Red) {
        assert(is_candidate(s.grid, m1.1, m1.2));
        assert(is_candidate(s.grid, m2.1, m2.2));
        if m1.1 != m2.1 || m1.2 != m2.2 {
            assert(precedes(m1.1, m1.2, m2.1, m2.2) || precedes(m2.1, m2.2, m1.1, m1.2));
        }
    }
}

impl Redesia {
    pub fn new(ataxx: &Ataxx) -> (r: Redesia)
        ensures
            r.width == ataxx.width,
            r.height == ataxx.height,
            r.board == ataxx.board,
            r.positions@.len() == 0,
    {
        Redesia {
            width: ataxx.width,
            height: ataxx.height,
            board: ataxx.board,
            positions: Vec::new(),
        }
    }

    /// Plays `from`, then `to`, on a copy of `state` and counts the Red cells.
    fn evaluate_move(&self, state: Ataxx, from: Position, to: Position) -> (r: i32)
        requires
            state.wf(),
        ensures
            r == move_score(state@, from, to),
    {
        let mut copy = state;
        copy.select_cell(from);
        copy.select_cell(to);
        copy.count_cells(CellType::Red) as i32
    }

    /// Appends to `positions` every legal move of Red and its score, in scan
    /// order: source column, source row, destination column, destination row.
    /// The entries already there are kept.
    fn collect_moves(&mut self, state: &Ataxx)
        requires
            old(self).width == SIZE,
            old(self).height == SIZE,
            old(self).board == state.board,
            state.wf(),
        ensures
            final(self).width == SIZE,
            final(self).height == SIZE,
            final(self).board == state.board,
            final(self).positions@.len() >= old(self).positions@.len(),
            final(self).positions@.subrange(0, old(self).positions@.len() as int) == old(self).positions@,
            collected(
                final(self).positions@.skip(old(self).positions@.len() as int),
                state@,
                (7, 0, -2, -2),
            ),
    {
        let ghost s = state@;
        let ghost start = self.positions@;
        let color = CellType::Red;
        let mut x: i16 = 0;
        while x < self.width
            invariant
                0 <= x <= SIZE,
                self.width == SIZE,
                self.height == SIZE,
                self.board == state.board,
                state.wf(),
                s == state@,
                color == CellType::Red,
                self.positions@.len() >= start.len(),
                self.positions@.subrange(0, start.len() as int) == start,
                collected(self.positions@.skip(start.len() as int), s, (x as int, 0, -2, -2)),
            decreases SIZE - x,
        {
            let mut y: i16 = 0;
            while y < self.height
                invariant
                    0 <= x < SIZE,
                    0 <= y <= SIZE,
                    self.width == SIZE,
                    self.height == SIZE,
                    self.board == state.board,
                    state.wf(),
                    s == state@,
                    color == CellType::Red,
                    self.positions@.len() >= start.len(),
                    self.positions@.subrange(0, start.len() as int) == start,
                    collected(self.positions@.skip(start.len() as int), s, (x as int, y as int, -2, -2)),
                decreases SIZE - y,
            {
                if self.board[x as usize][y as usize] == color {
                    let mut dx: i16 = -2;
                    while dx < 3
                        invariant
                            0 <= x < SIZE,
                            0 <= y < SIZE,
                            -2 <= dx <= 3,
                            self.width == SIZE,
                            self.height == SIZE,
                            self.board == state.board,
                            self.board@[x as int]@[y as int] == color,
                            state.wf(),
                            s == state@,
                            color == CellType::Red,
                            self.positions@.len() >= start.len(),
                            self.positions@.subrange(0, start.len() as int) == start,
                            collected(self.positions@.skip(start.len() as int), s, (x as int, y as int, dx as int, -2)),
                        decreases 3 - dx,
                    {
                        let mut dy: i16 = -2;
                        while dy < 3
                            invariant
                                0 <= x < SIZE,
                                0 <= y < SIZE,
                                -2 <= dx < 3,
                                -2 <= dy <= 3,
                                self.width == SIZE,
                                self.height == SIZE,
                                self.board == state.board,
                                self.board@[x as int]@[y as int] == color,
                                state.wf(),
                                s == state@,
                                color == CellType::Red,
                                self.positions@.len() >= start.len(),
                                self.positions@.subrange(0, start.len() as int) == start,
                                collected(self.positions@.skip(start.len() as int), s, (x as int, y as int, dx as int, dy as int)),
                            decreases 3 - dy,
                        {
                            let new_x = x + dx;
                            let new_y = y + dy;
                            let ghost f: Pos = (x as u8, y as u8);
                            let ghost t: Pos = (new_x as u8, new_y as u8);
                            let ghost p0 = self.positions@.skip(start.len() as int);
                            if new_x >= 0 && new_y >= 0 && new_x < self.width && new_y < self.height {
                                if self.board[new_x as usize][new_y as usize] == CellType::Empty {
                                    let eval = self.evaluate_move(*state, (x, y), (new_x, new_y));
                                    let ghost before = self.positions@;
                                    self.positions.push((eval, (x as u8, y as u8), (new_x as u8, new_y as u8)));
                                    let ghost q = self.positions@.skip(start.len() as int);
                                    assert(q =~= p0.push((eval, f, t)));
                                    assert(self.positions@.subrange(0, start.len() as int) =~= before.subrange(0, start.len() as int));
                                    assert(is_candidate(s.grid, f, t));
                                    assert(q[p0.len() as int].1 == f);
                                    assert(listed(q, f, t));
                                    assert forall|f2: Pos, t2: Pos| #[trigger]
                                        is_candidate(s.grid, f2, t2) && lex_before(
                                            scan_key(f2, t2),
                                            (x as int, y as int, dx as int, dy + 1),
                                        ) implies listed(q, f2, t2) by {
                                        if lex_before(scan_key(f2, t2), (x as int, y as int, dx as int, dy as int)) {
                                            let k = choose|k: int| 0 <= k < p0.len() && p0[k].1 == f2 && p0[k].2 == t2;
                                            assert(q[k] == p0[k]);
                                        }
                                    }
                                }
                            }
                            dy += 1;
                        }
                        dx += 1;
                    }
                }
                y += 1;
            }
            x += 1;
        }
    }

    /// Searches `state` for Red's best move. The live board is never touched:
    /// the search works on copies.
    pub fn step(&mut self, state: Ataxx) -> (r: Mov)
        requires
            old(self).width == SIZE,
            old(self).height == SIZE,
            state.wf(),
        ensures
            final(self).width == SIZE,
            final(self).height == SIZE,
            final(self).board == state.board,
            collected(final(self).positions@, state@, (7, 0, -2, -2)),
            is_bot_choice(state@, r),
    {
        self.positions.clear();
        self.board = state.board;
        self.collect_moves(&state);
        let ghost s = state@;
        let ghost p = self.positions@;
        assert(p.skip(0) =~= p);
        assert forall|f: Pos, t: Pos| #[trigger] is_candidate(s.grid, f, t) implies listed(p, f, t) by {
            assert(lex_before(scan_key(f, t), (7, 0, -2, -2)));
        }
        let n = self.positions.len();
        if n == 0 {
            proof {
                if has_move(s.grid, CellType::Red) {
                    lemma_candidate_exists(s.grid);
                }
            }
            return (0, (7, 7), (7, 7));
        }
        let mut best: Mov = self.positions[0];
        let ghost mut bi: int = 0;
        let mut k: usize = 1;
        while k < n
            invariant
                1 <= k <= n,
                n == p.len(),
                p == self.positions@,
                0 <= bi < k,
                best == p[bi],
                forall|j: int| 0 <= j < k ==> #[trigger] p[j].0 <= best.0,
                forall|j: int| 0 <= j < bi ==> #[trigger] p[j].0 < best.0,
            decreases n - k,
        {
            if self.positions[k].0 > best.0 {
                best = self.positions[k];
                proof {
                    bi = k as int;
                }
            }
            k += 1;
        }
        assert(is_candidate(s.grid, p[0].1, p[0].2));
        assert forall|f: Pos, t: Pos| #[trigger]
            is_candidate(s.grid, f, t) implies move_score(s, widen(f), widen(t)) <= best.0 && (precedes(
            f,
            t,
            best.1,
            best.2,
        ) ==> move_score(s, widen(f), widen(t)) < best.0) by {
            let j = choose|j: int| 0 <= j < p.len() && p[j].1 == f && p[j].2 == t;
            if j > bi {
                assert(precedes(p[bi].1, p[bi].2, p[j].1, p[j].2));
            }
        }
        best
    }
}

} // verus!
