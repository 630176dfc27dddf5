use vstd::prelude::*;

use rayon::iter::{IntoParallelRefIterator, ParallelIterator};

use crate::anfield::{Anfield, Cell, EMPTY};
use crate::piece::Piece;
use crate::robot::Robot;

verus! {

/// Weight of the blocking term in the score.
pub const BLOCKING_WEIGHT: i128 = 10;

/// Scale of the edge-proximity term, before it is divided by the larger
/// side of the board.
pub const EDGE_SCALE: i128 = 20;

/// Weight of the surround term in the score.
pub const SURROUND_WEIGHT: i128 = 2;

/// Stands for "no distance": the squared distance to an empty set of cells.
pub const NO_DISTANCE: u128 = 0xffff_ffff_ffff_ffff_ffff_ffff_ffff_ffff;

/// A candidate placement: `piece` with its top-left corner at `(x, y)`,
/// placed by player `robot_idx`.
#[derive(Debug, Clone, PartialEq, Eq)]
pub struct Position {
    pub x: i32,
    pub y: i32,
    pub robot_idx: i32,
    pub piece: Piece,
}

/// `r` is the integer square root of `n`.
pub open spec fn is_floor_sqrt(r: int, n: int) -> bool {
    0 <= r && r * r <= n && n < (r + 1) * (r + 1)
}

/// The largest integer whose square is at most `n`.
pub open spec fn floor_sqrt(n: int) -> int {
    choose|r: int| is_floor_sqrt(r, n)
}

/// Squared euclidean distance between `(ax, ay)` and `(bx, by)`.
pub open spec fn dist2(ax: int, ay: int, bx: int, by: int) -> int {
    (ax - bx) * (ax - bx) + (ay - by) * (ay - by)
}

/// What frontier cell `c` contributes to the surround term of anchor
/// `(ax, ay)` for player `me`: its squared distance to the anchor when it
/// is held by the other player (else no distance), and its number of empty
/// neighbours. A cell off the board contributes nothing.
pub open spec fn partial(g: Anfield, c: Cell, ax: int, ay: int, me: int) -> (int, int) {
    if !g.in_bounds(c.x as int, c.y as int) {
        (NO_DISTANCE as int, 0)
    } else {
        let o = g.owner(c.x as int, c.y as int);
        (
            if o != EMPTY && o != me {
                dist2(ax, ay, c.x as int, c.y as int)
            } else {
                NO_DISTANCE as int
            },
            g.empty_neighbours(c.x as int, c.y as int) as int,
        )
    }
}

/// Combines two partial results: the smaller distance and the sum of the counts.
pub open spec fn merge(a: (int, int), b: (int, int)) -> (int, int) {
    (if a.0 <= b.0 {
        a.0
    } else {
        b.0
    }, a.1 + b.1)
}

/// The partial results of all cells of `s`, combined.
pub open spec fn reach(g: Anfield, s: Seq<Cell>, ax: int, ay: int, me: int) -> (int, int)
    decreases s.len(),
{
    if s.len() == 0 {
        (NO_DISTANCE as int, 0)
    } else {
        merge(reach(g, s.drop_last(), ax, ay, me), partial(g, s.last(), ax, ay, me))
    }
}

/// The surround term from the smallest squared distance `m` to a frontier
/// cell and the number `s` of empty cells around the frontier: `|d - s|`
/// truncated to an integer, `d` being the distance `sqrt(m)`, at most
/// `i32::MAX`; `i32::MAX` when there is no distance at all.
pub open spec fn surround_of(m: int, s: int) -> int {
    if m == NO_DISTANCE as int {
        i32::MAX as int
    } else {
        let r = floor_sqrt(m);
        let v = if r >= s {
            r - s
        } else if r * r == m {
            s - r
        } else {
            s - r - 1
        };
        if v > i32::MAX {
            i32::MAX as int
        } else {
            v
        }
    }
}

/// The edge proximity of board cell `(x, y)`: the mean of its distances to
/// the nearest row edge and the nearest column edge, rounded down.
pub open spec fn edge_at(g: Anfield, x: int, y: int) -> int {
    let row = if y <= g.height - 1 - y {
        y
    } else {
        g.height - 1 - y
    };
    let col = if x <= g.width - 1 - x {
        x
    } else {
        g.width - 1 - x
    };
    (row + col) / 2
}

proof fn lemma_floor_sqrt_unique(r1: int, r2: int, n: int)
    requires
        is_floor_sqrt(r1, n),
        is_floor_sqrt(r2, n),
    ensures
        r1 == r2,
{
    if r1 < r2 {
        assert((r1 + 1) * (r1 + 1) <= r2 * r2) by (nonlinear_arith)
            requires
                0 <= r1,
                r1 + 1 <= r2,
        ;
    } else if r2 < r1 {
        assert((r2 + 1) * (r2 + 1) <= r1 * r1) by (nonlinear_arith)
            requires
                0 <= r2,
                r2 + 1 <= r1,
        ;
    }
}

/// The integer square root of `n`, by bisection.
fn isqrt(n: u128) -> (r: u128)
    requires
        n < 0x4_0000_0000_0000_0000,
    ensures
        r == floor_sqrt(n as int),
        r < 0x4_0000_0000,
{
    let mut lo: u128 = 0;
    let mut hi: u128 = 0x4_0000_0000;
    assert(hi * hi == 0x10_0000_0000_0000_0000);
    while hi - lo > 1
        invariant
            lo < hi <= 0x4_0000_0000,
            lo * lo <= n,
            n < hi * hi,
        decreases hi - lo,
    {
        let mid = lo + (hi - lo) / 2;
        assert(mid * mid <= 0x10_0000_0000_0000_0000) by (nonlinear_arith)
            requires
                mid <= 0x4_0000_0000,
        ;
        if mid * mid <= n {
            lo = mid;
        } else {
            hi = mid;
        }
    }
    proof {
        assert(is_floor_sqrt(lo as int, n as int));
        let c = floor_sqrt(n as int);
        lemma_floor_sqrt_unique(c, lo as int, n as int);
    }
    lo
}

/// The contribution of frontier cell `c` to the surround term of `(ax, ay)`.
pub fn frontier_partial(g: &Anfield, c: &Cell, ax: i32, ay: i32, me: i32) -> (r: (u128, u128))
    requires
        g.wf(),
    ensures
        (r.0 as int, r.1 as int) == partial(*g, *c, ax as int, ay as int, me as int),
        r.1 <= 8,
{
    match g.owner_of(c.x as i64, c.y as i64) {
        None => (NO_DISTANCE, 0),
        Some(o) => {
            let count = g.count_empty_neighbours(c.x as i64, c.y as i64);
            let mut d: u128 = NO_DISTANCE;
            if o != EMPTY && o != me {
                let dx: i128 = ax as i128 - c.x as i128;
                let dy: i128 = ay as i128 - c.y as i128;
                assert(dx * dx <= 0x1_0000_0000_0000_0000) by (nonlinear_arith)
                    requires
                        -0x1_0000_0000 <= dx <= 0x1_0000_0000,
                ;
                assert(dy * dy <= 0x1_0000_0000_0000_0000) by (nonlinear_arith)
                    requires
                        -0x1_0000_0000 <= dy <= 0x1_0000_0000,
                ;
                assert(0 <= dx * dx && 0 <= dy * dy) by (nonlinear_arith);
                d = (dx * dx + dy * dy) as u128;
            }
            (d, count as u128)
        },
    }
}

/// Combines two partial results of the surround term.
pub fn merge_partials(a: (u128, u128), b: (u128, u128)) -> (r: (u128, u128))
    requires
        a.1 + b.1 <= u128::MAX,
    ensures
        (r.0 as int, r.1 as int) == merge((a.0 as int, a.1 as int), (b.0 as int, b.1 as int)),
{
    (if a.0 <= b.0 {
        a.0
    } else {
        b.0
    }, a.1 + b.1)
}

/// Relies on rayon's `par_iter`, `map` and `reduce`: the items are mapped in
/// parallel and combined with `merge_partials`, which is associative and has
/// `(NO_DISTANCE, 0)` as identity, so the result is that of combining them in
/// order. Each count is at most 8, so no partial sum exceeds `8 * usize::MAX`.
#[verifier::external_body]
fn reduce_frontier(g: &Anfield, cells: &Vec<Cell>, ax: i32, ay: i32, me: i32) -> (r: (u128, u128))
    requires
        g.wf(),
        cells@.len() <= usize::MAX,
    ensures
        (r.0 as int, r.1 as int) == reach(*g, cells@, ax as int, ay as int, me as int),
{
    cells.par_iter().map(|c| frontier_partial(g, c, ax, ay, me)).reduce(
        || (NO_DISTANCE, 0),
        |a, b| merge_partials(a, b),
    )
}

/// Bounds on a combined frontier result.
pub proof fn lemma_reach_bounds(g: Anfield, s: Seq<Cell>, ax: int, ay: int, me: int)
    requires
        -0x8000_0000 <= ax < 0x8000_0000,
        -0x8000_0000 <= ay < 0x8000_0000,
    ensures
        0 <= reach(g, s, ax, ay, me).1 <= 8 * s.len(),
        0 <= reach(g, s, ax, ay, me).0 <= NO_DISTANCE,
        reach(g, s, ax, ay, me).0 == NO_DISTANCE || reach(g, s, ax, ay, me).0 <= 0x2_0000_0000_0000_0000,
    decreases s.len(),
{
    if s.len() > 0 {
        lemma_reach_bounds(g, s.drop_last(), ax, ay, me);
        let c = s.last();
        lemma_empty_upto_bound(g, c.x as int, c.y as int, 8);
        let dx = ax - c.x;
        let dy = ay - c.y;
        assert(0 <= dx * dx <= 0x1_0000_0000_0000_0000) by (nonlinear_arith)
            requires
                -0x1_0000_0000 <= dx <= 0x1_0000_0000,
        ;
        assert(0 <= dy * dy <= 0x1_0000_0000_0000_0000) by (nonlinear_arith)
            requires
                -0x1_0000_0000 <= dy <= 0x1_0000_0000,
        ;
    }
}

proof fn lemma_empty_upto_bound(g: Anfield, x: int, y: int, k: int)
    ensures
        g.empty_upto(x, y, k) <= if k < 0 {
            0
        } else {
            k
        },
    decreases k,
{
    if k > 0 {
        lemma_empty_upto_bound(g, x, y, k - 1);
    }
}

/// The surround term from the smallest squared distance `m` and the count `s`.
fn surround_value(m: u128, s: u128) -> (r: i32)
    requires
        m == NO_DISTANCE || m <= 0x2_0000_0000_0000_0000,
    ensures
        r == surround_of(m as int, s as int),
{
    if m == NO_DISTANCE {
        return i32::MAX;
    }
    let r = isqrt(m);
    assert(r * r <= 0x10_0000_0000_0000_0000) by (nonlinear_arith)
        requires
            r < 0x4_0000_0000,
    ;
    let v: u128 = if r >= s {
        r - s
    } else if r * r == m {
        s - r
    } else {
        s - r - 1
    };
    if v > i32::MAX as u128 {
        i32::MAX
    } else {
        v as i32
    }
}

impl Position {
    /// Sum of the blocking potentials of the first `j` filled cells of footprint row `i`.
    pub open spec fn blocking_row(&self, g: Anfield, i: int, j: int) -> int
        decreases j,
    {
        if j <= 0 {
            0
        } else {
            self.blocking_row(g, i, j - 1) + if self.piece@.filled(i, j - 1) {
                g.blocking_at(self.x + j - 1, self.y + i, self.robot_idx as int)
            } else {
                0
            }
        }
    }

    /// Sum of the blocking potentials of the filled cells of the first `i` footprint rows.
    pub open spec fn blocking_rows(&self, g: Anfield, i: int) -> int
        decreases i,
    {
        if i <= 0 {
            0
        } else {
            self.blocking_rows(g, i - 1) + self.blocking_row(g, i - 1, self.piece.width as int)
        }
    }

    /// Sum of the edge proximities of the first `j` filled cells of footprint row `i`.
    pub open spec fn edge_row(&self, g: Anfield, i: int, j: int) -> int
        decreases j,
    {
        if j <= 0 {
            0
        } else {
            self.edge_row(g, i, j - 1) + if self.piece@.filled(i, j - 1) {
                edge_at(g, self.x + j - 1, self.y + i)
            } else {
                0
            }
        }
    }

    /// Sum of the edge proximities of the filled cells of the first `i` footprint rows.
    pub open spec fn edge_rows(&self, g: Anfield, i: int) -> int
        decreases i,
    {
        if i <= 0 {
            0
        } else {
            self.edge_rows(g, i - 1) + self.edge_row(g, i - 1, self.piece.width as int)
        }
    }

    /// The blocking term: the blocking potentials of all filled cells.
    pub open spec fn blocking_term(&self, g: Anfield) -> int {
        self.blocking_rows(g, self.piece.height as int)
    }

    /// The edge term: `20` times the summed edge proximities of all filled
    /// cells, divided by the larger side of the board.
    pub open spec fn edge_term(&self, g: Anfield) -> int {
        let m = if g.width >= g.height {
            g.width as int
        } else {
            g.height as int
        };
        EDGE_SCALE * self.edge_rows(g, self.piece.height as int) / m
    }

    /// The surround term of this anchor against the board's frontier.
    pub open spec fn surround_term(&self, g: Anfield, me: int) -> int {
        let f = reach(g, g.opp_occupation@, self.x as int, self.y as int, me);
        surround_of(f.0, f.1)
    }

    /// The score of this placement: ten times the blocking term, plus the
    /// edge term, plus twice the surround term.
    pub open spec fn score_of(&self, g: Anfield, me: int) -> int {
        BLOCKING_WEIGHT * self.blocking_term(g) + self.edge_term(g) + SURROUND_WEIGHT
            * self.surround_term(g, me)
    }

    /// The number of filled cells among the first `j` of footprint row `i`,
    /// and the sum of their empty neighbours.
    pub open spec fn room_row(&self, g: Anfield, i: int, j: int) -> (int, int)
        decreases j,
    {
        if j <= 0 {
            (0, 0)
        } else {
            let prev = self.room_row(g, i, j - 1);
            if self.piece@.filled(i, j - 1) {
                (prev.0 + 1, prev.1 + g.empty_neighbours(self.x + j - 1, self.y + i))
            } else {
                prev
            }
        }
    }

    /// The same over the first `i` footprint rows.
    pub open spec fn room_rows(&self, g: Anfield, i: int) -> (int, int)
        decreases i,
    {
        if i <= 0 {
            (0, 0)
        } else {
            let a = self.room_rows(g, i - 1);
            let b = self.room_row(g, i - 1, self.piece.width as int);
            (a.0 + b.0, a.1 + b.1)
        }
    }

    /// The expansion term: `20` times the share of empty cells around the
    /// filled cells, out of eight per cell; zero for a piece with no filled cell.
    pub open spec fn expansion_term(&self, g: Anfield) -> int {
        let r = self.room_rows(g, self.piece.height as int);
        if r.0 == 0 {
            0
        } else {
            20 * r.1 / (8 * r.0)
        }
    }

    /// The blocking potential of footprint cell `coord` (column, row).
    fn blocking_score(&self, anfield: &Anfield, coord: (i32, i32)) -> (r: i32)
        requires
            anfield.wf(),
            anfield.in_bounds(self.x + coord.0, self.y + coord.1),
        ensures
            r == anfield.blocking_at(self.x + coord.0, self.y + coord.1, self.robot_idx as int),
            0 <= r <= 20,
    {
        let cell = Cell::new(self.x + coord.0, self.y + coord.1, self.robot_idx);
        cell.blocking_potential(anfield)
    }

    /// The edge proximity of footprint cell `coord` (column, row).
    fn edge_proximity(&self, anfield: &Anfield, coord: (i32, i32)) -> (r: u64)
        requires
            anfield.wf(),
            anfield.in_bounds(self.x + coord.0, self.y + coord.1),
        ensures
            r == edge_at(*anfield, self.x + coord.0, self.y + coord.1),
            r < 0x8000_0000,
    {
        let x = (self.x + coord.0) as u64;
        let y = (self.y + coord.1) as u64;
        let w = anfield.width as u64;
        let h = anfield.height as u64;
        let row_dist = if y <= h - 1 - y {
            y
        } else {
            h - 1 - y
        };
        let col_dist = if x <= w - 1 - x {
            x
        } else {
            w - 1 - x
        };
        (row_dist + col_dist) / 2
    }

    /// How much room the placed cells leave to grow: `20` times the share of
    /// empty cells around the filled cells of the piece, out of eight per cell.
    /// Not part of `score`.
    pub fn expansion_score(&self, anfield: &Anfield) -> (r: i128)
        requires
            anfield.wf(),
            self.piece.wf(),
            anfield.fits(self.x as int, self.y as int, self.robot_idx as int, self.piece@),
        ensures
            r == self.expansion_term(*anfield),
    {
        let ghost g = *anfield;
        let ghost ax = self.x as int;
        let ghost ay = self.y as int;
        let ghost me = self.robot_idx as int;
        let ghost p = self.piece@;
        let mut space: i128 = 0;
        let mut room: i128 = 0;
        let mut i: i32 = 0;
        while i < self.piece.height
            invariant
                anfield.wf(),
                self.piece.wf(),
                g == *anfield,
                ax == self.x,
                ay == self.y,
                me == self.robot_idx,
                p == self.piece@,
                anfield.fits(ax, ay, me, p),
                0 <= i <= self.piece.height,
                (space as int, room as int) == self.room_rows(g, i as int),
                0 <= space <= 0x8000_0000 * (i as int),
                0 <= room <= 0x4_0000_0000 * (i as int),
            decreases self.piece.height - i,
        {
            proof {
                self.piece.lemma_row(i as int);
            }
            let row = &self.piece.cells[i as usize];
            let mut row_space: i128 = 0;
            let mut row_room: i128 = 0;
            let mut j: i32 = 0;
            while j < self.piece.width
                invariant
                    anfield.wf(),
                    self.piece.wf(),
                    g == *anfield,
                    ax == self.x,
                    ay == self.y,
                    me == self.robot_idx,
                    p == self.piece@,
                    anfield.fits(ax, ay, me, p),
                    0 <= i < self.piece.height,
                    0 <= j <= self.piece.width,
                    row@ == p.shape[i as int],
                    row@.len() == self.piece.width,
                    (row_space as int, row_room as int) == self.room_row(g, i as int, j as int),
                    0 <= row_space <= j,
                    0 <= row_room <= 8 * (j as int),
                decreases self.piece.width - j,
            {
                if row[j as usize] != '.' {
                    assert(anfield.cell_fits(ax, ay, me, p, i as int, j as int));
                    let e = anfield.count_empty_neighbours(
                        (self.x + j) as i64,
                        (self.y + i) as i64,
                    );
                    row_space = row_space + 1;
                    row_room = row_room + e as i128;
                }
                j = j + 1;
            }
            space = space + row_space;
            room = room + row_room;
            i = i + 1;
        }
        if space == 0 {
            0
        } else {
            ((20 * room) as u128 / (8 * space) as u128) as i128
        }
    }

    /// The surround term: how the distance from the anchor to the nearest
    /// frontier cell compares with the room left around the frontier.
    pub fn surround_score(&self, anfield: &Anfield, robot: &Robot) -> (r: i32)
        requires
            anfield.wf(),
        ensures
            r == self.surround_term(*anfield, robot.id as int),
    {
        // the frontier holds at most usize::MAX cells, which bounds the summed counts
        let _ = anfield.opp_occupation.len();
        let (m, s) = reduce_frontier(anfield, &anfield.opp_occupation, self.x, self.y, robot.id);
        proof {
            lemma_reach_bounds(
                *anfield,
                anfield.opp_occupation@,
                self.x as int,
                self.y as int,
                robot.id as int,
            );
        }
        surround_value(m, s)
    }

    /// The score of a legal placement; higher is better.
    pub fn score(&self, anfield: &Anfield, robot: &Robot) -> (r: i128)
        requires
            anfield.wf(),
            self.piece.wf(),
            anfield.legal(self.x as int, self.y as int, self.robot_idx as int, self.piece@),
        ensures
            r == self.score_of(*anfield, robot.id as int),
    {
        let ghost g = *anfield;
        let ghost ax = self.x as int;
        let ghost ay = self.y as int;
        let ghost me = self.robot_idx as int;
        let ghost p = self.piece@;
        proof {
            anfield.lemma_touch_witness(ax, ay, me, p, p.height as int);
        }
        let mut blocking: i128 = 0;
        let mut edge: i128 = 0;
        let mut i: i32 = 0;
        while i < self.piece.height
            invariant
                anfield.wf(),
                self.piece.wf(),
                g == *anfield,
                ax == self.x,
                ay == self.y,
                me == self.robot_idx,
                p == self.piece@,
                anfield.fits(ax, ay, me, p),
                0 <= i <= self.piece.height,
                blocking == self.blocking_rows(g, i as int),
                edge == self.edge_rows(g, i as int),
                0 <= blocking <= 0x10_0000_0000 * (i as int),
                0 <= edge <= 0x4000_0000_0000_0000 * (i as int),
            decreases self.piece.height - i,
        {
            proof {
                self.piece.lemma_row(i as int);
            }
            let row = &self.piece.cells[i as usize];
            let mut row_blocking: i128 = 0;
            let mut row_edge: i128 = 0;
            let mut j: i32 = 0;
            while j < self.piece.width
                invariant
                    anfield.wf(),
                    self.piece.wf(),
                    g == *anfield,
                    ax == self.x,
                    ay == self.y,
                    me == self.robot_idx,
                    p == self.piece@,
                    anfield.fits(ax, ay, me, p),
                    0 <= i < self.piece.height,
                    0 <= j <= self.piece.width,
                    row@ == p.shape[i as int],
                    row@.len() == self.piece.width,
                    row_blocking == self.blocking_row(g, i as int, j as int),
                    row_edge == self.edge_row(g, i as int, j as int),
                    0 <= row_blocking <= 20 * (j as int),
                    0 <= row_edge <= 0x8000_0000 * (j as int),
                decreases self.piece.width - j,
            {
                if row[j as usize] != '.' {
                    assert(anfield.cell_fits(ax, ay, me, p, i as int, j as int));
                    row_blocking = row_blocking + self.blocking_score(anfield, (j, i)) as i128;
                    row_edge = row_edge + self.edge_proximity(anfield, (j, i)) as i128;
                }
                j = j + 1;
            }
            blocking = blocking + row_blocking;
            edge = edge + row_edge;
            i = i + 1;
        }
        let w = anfield.width;
        let h = anfield.height;
        let m: i128 = if w >= h {
            w as i128
        } else {
            h as i128
        };
        let edge_term = ((EDGE_SCALE * edge) as u128 / m as u128) as i128;
        let surround = self.surround_score(anfield, robot);
        BLOCKING_WEIGHT * blocking + edge_term + SURROUND_WEIGHT * surround as i128
    }
}

/// `k` is the last index of `s` with the highest score.
pub open spec fn is_best(s: Seq<(Position, i128)>, k: int) -> bool {
    &&& 0 <= k < s.len()
    &&& forall|i: int| 0 <= i < s.len() ==> #[trigger] s[i].1 <= s[k].1
    &&& forall|i: int| k < i < s.len() ==> #[trigger] s[i].1 < s[k].1
}

/// `r` is the move picked among candidates `s`.
pub open spec fn picked(s: Seq<(Position, i128)>, r: (i32, i32)) -> bool {
    &&& s.len() == 0 ==> r == (0i32, 0i32)
    &&& s.len() > 0 ==> exists|k: int| is_best(s, k) && r == (s[k].0.x, s[k].0.y)
}

/// The anchor of the candidate with the highest score, the last of them
/// when several tie; `(0, 0)`, a pass, when there is no candidate.
pub fn best_move(candidates: &Vec<(Position, i128)>) -> (r: (i32, i32))
    ensures
        picked(candidates@, r),
{
    if candidates.len() == 0 {
        return (0, 0);
    }
    let mut best: usize = 0;
    let mut i: usize = 1;
    while i < candidates.len()
        invariant
            0 <= best < i <= candidates@.len(),
            forall|j: int| 0 <= j < i ==> #[trigger] candidates@[j].1 <= candidates@[best as int].1,
            forall|j: int| best < j < i ==> #[trigger] candidates@[j].1 < candidates@[best as int].1,
        decreases candidates@.len() - i,
    {
        if candidates[i].1 >= candidates[best].1 {
            best = i;
        }
        i = i + 1;
    }
    let p = &candidates[best].0;
    assert(is_best(candidates@, best as int));
    (p.x, p.y)
}

} // verus!
