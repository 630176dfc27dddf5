use vstd::prelude::*;

use crate::piece::{Piece, PieceView};
use crate::robot::Robot;
use crate::scoring::Position;

verus! {

/// Owner value of an empty cell.
pub const EMPTY: i32 = 0;

/// The board: `height` rows of `width` owners, `occupation[y][x]` being
/// `EMPTY` or the id of the player that holds `(x, y)`, and the exposed
/// opponent cells found by the last call of `update_opp_occupation`.
#[derive(Debug, Clone)]
pub struct Anfield {
    pub width: i32,
    pub height: i32,
    pub occupation: Vec<Vec<i32>>,
    pub opp_occupation: Vec<Cell>,
}

/// A board coordinate together with its owner.
#[derive(Debug, Clone, Copy, PartialEq, Eq, Structural)]
pub struct Cell {
    pub x: i32,
    pub y: i32,
    pub occupied_by: i32,
}

/// Another name for [`Cell`].
pub type Ceil = Cell;

/// Horizontal offset of the `k`-th neighbour, in row-major order around the
/// centre: the row above, then left and right, then the row below.
pub open spec fn nb_dx(k: int) -> int {
    if k == 0 || k == 3 || k == 5 {
        -1
    } else if k == 1 || k == 6 {
        0
    } else {
        1
    }
}

/// Vertical offset of the `k`-th neighbour.
pub open spec fn nb_dy(k: int) -> int {
    if k < 3 {
        -1
    } else if k < 5 {
        0
    } else {
        1
    }
}

/// `n`, or 2 when it is larger.
pub open spec fn cap2(n: nat) -> nat {
    if n < 2 {
        n
    } else {
        2
    }
}

/// Owner ids that may appear on the board.
pub open spec fn valid_owner(o: i32) -> bool {
    0 <= o <= 2
}

/// The offset of the `k`-th neighbour.
fn neighbour_offset(k: usize) -> (r: (i64, i64))
    requires
        k < 8,
    ensures
        r.0 == nb_dx(k as int),
        r.1 == nb_dy(k as int),
{
    if k == 0 {
        (-1, -1)
    } else if k == 1 {
        (0, -1)
    } else if k == 2 {
        (1, -1)
    } else if k == 3 {
        (-1, 0)
    } else if k == 4 {
        (1, 0)
    } else if k == 5 {
        (-1, 1)
    } else if k == 6 {
        (0, 1)
    } else {
        (1, 1)
    }
}

impl Anfield {
    /// Every row has `width` cells and holds valid owners.
    pub open spec fn wf(&self) -> bool {
        &&& 0 <= self.width
        &&& 0 <= self.height
        &&& self.occupation@.len() == self.height
        &&& forall|y: int|
            0 <= y < self.height ==> #[trigger] self.occupation@[y]@.len() == self.width
        &&& forall|y: int, x: int|
            0 <= y < self.height && 0 <= x < self.width ==> valid_owner(
                #[trigger] self.occupation@[y]@[x],
            )
    }

    pub open spec fn in_bounds(&self, x: int, y: int) -> bool {
        0 <= x < self.width && 0 <= y < self.height
    }

    /// The owner of an in-bounds cell.
    pub open spec fn owner(&self, x: int, y: int) -> i32 {
        self.occupation@[y]@[x]
    }

    /// The number of the first `k` neighbours of `(x, y)` that lie on the
    /// board and are empty.
    pub open spec fn empty_upto(&self, x: int, y: int, k: int) -> nat
        decreases k,
    {
        if k <= 0 {
            0
        } else {
            let nx = x + nb_dx(k - 1);
            let ny = y + nb_dy(k - 1);
            self.empty_upto(x, y, k - 1) + if self.in_bounds(nx, ny) && self.owner(nx, ny)
                == EMPTY {
                1nat
            } else {
                0nat
            }
        }
    }

    /// The number of empty cells among the eight neighbours of `(x, y)`.
    pub open spec fn empty_neighbours(&self, x: int, y: int) -> nat {
        self.empty_upto(x, y, 8)
    }

    /// The first `k` neighbours of `(x, y)` that lie on the board, with their owners.
    pub open spec fn neighbours_upto(&self, x: int, y: int, k: int) -> Seq<Cell>
        decreases k,
    {
        if k <= 0 {
            Seq::empty()
        } else {
            let nx = x + nb_dx(k - 1);
            let ny = y + nb_dy(k - 1);
            let prev = self.neighbours_upto(x, y, k - 1);
            if self.in_bounds(nx, ny) {
                prev.push(Cell { x: nx as i32, y: ny as i32, occupied_by: self.owner(nx, ny) })
            } else {
                prev
            }
        }
    }

    /// The neighbours of `(x, y)` on the board, in row-major order.
    pub open spec fn neighbours(&self, x: int, y: int) -> Seq<Cell> {
        self.neighbours_upto(x, y, 8)
    }

    /// What a cell on the board contributes to the blocking potential of a
    /// cell owned by `me` next to it: `20 * e / 8` when it belongs to another
    /// player, `e` being its number of empty neighbours.
    pub open spec fn pressure(&self, x: int, y: int, me: int) -> int {
        if self.in_bounds(x, y) && self.owner(x, y) != me && self.owner(x, y) != EMPTY {
            (20 * self.empty_neighbours(x, y) / 8) as int
        } else {
            0
        }
    }

    /// The sum of the pressures of the first `k` neighbours of `(x, y)`.
    pub open spec fn pressure_upto(&self, x: int, y: int, me: int, k: int) -> int
        decreases k,
    {
        if k <= 0 {
            0
        } else {
            self.pressure_upto(x, y, me, k - 1) + self.pressure(
                x + nb_dx(k - 1),
                y + nb_dy(k - 1),
                me,
            )
        }
    }

    /// The blocking potential of a cell at `(x, y)` owned by `me`.
    pub open spec fn blocking_at(&self, x: int, y: int, me: int) -> int {
        self.pressure_upto(x, y, me, 8) / 8
    }

    /// Whether filled footprint cell `(i, j)` of `p` anchored at `(ax, ay)`
    /// lands on the board on a cell that is empty or already `me`'s.
    pub open spec fn cell_fits(&self, ax: int, ay: int, me: int, p: PieceView, i: int, j: int) -> bool {
        p.filled(i, j) ==> self.in_bounds(ax + j, ay + i) && (self.owner(ax + j, ay + i) == EMPTY
            || self.owner(ax + j, ay + i) == me)
    }

    /// Whether filled footprint cell `(i, j)` lands on a cell of `me`.
    pub open spec fn cell_touches(&self, ax: int, ay: int, me: int, p: PieceView, i: int, j: int) -> bool {
        p.filled(i, j) && self.in_bounds(ax + j, ay + i) && self.owner(ax + j, ay + i) == me
    }

    /// The number of the first `j` cells of footprint row `i` that land on `me`'s cells.
    pub open spec fn touch_row(&self, ax: int, ay: int, me: int, p: PieceView, i: int, j: int) -> nat
        decreases j,
    {
        if j <= 0 {
            0
        } else {
            self.touch_row(ax, ay, me, p, i, j - 1) + if self.cell_touches(ax, ay, me, p, i, j - 1) {
                1nat
            } else {
                0nat
            }
        }
    }

    /// The number of cells of the first `i` footprint rows that land on `me`'s cells.
    pub open spec fn touch_rows(&self, ax: int, ay: int, me: int, p: PieceView, i: int) -> nat
        decreases i,
    {
        if i <= 0 {
            0
        } else {
            self.touch_rows(ax, ay, me, p, i - 1) + self.touch_row(ax, ay, me, p, i - 1, p.width as int)
        }
    }

    /// The touch count: how many footprint cells land on `me`'s territory.
    pub open spec fn touch_count(&self, ax: int, ay: int, me: int, p: PieceView) -> nat {
        self.touch_rows(ax, ay, me, p, p.height as int)
    }

    /// Every filled footprint cell lands on the board, on no other player's cell.
    pub open spec fn fits(&self, ax: int, ay: int, me: int, p: PieceView) -> bool {
        forall|i: int, j: int|
            0 <= i < p.height && 0 <= j < p.width ==> #[trigger] self.cell_fits(ax, ay, me, p, i, j)
    }

    /// Placing `p` with its top-left corner at `(ax, ay)` is legal for `me`:
    /// it fits, and exactly one of its cells lands on `me`'s territory.
    pub open spec fn legal(&self, ax: int, ay: int, me: int, p: PieceView) -> bool {
        self.fits(ax, ay, me, p) && self.touch_count(ax, ay, me, p) == 1
    }

    /// Whether `(x, y)` is an exposed cell for `me`: held by the other player
    /// and with more than two empty neighbours.
    pub open spec fn exposed(&self, x: int, y: int, me: int) -> bool {
        &&& self.in_bounds(x, y)
        &&& self.owner(x, y) != EMPTY
        &&& self.owner(x, y) != me
        &&& self.empty_neighbours(x, y) > 2
    }

    /// The exposed cells among the first `x` cells of row `y`.
    pub open spec fn frontier_row(&self, me: int, y: int, x: int) -> Seq<Cell>
        decreases x,
    {
        if x <= 0 {
            Seq::empty()
        } else {
            let prev = self.frontier_row(me, y, x - 1);
            if self.exposed(x - 1, y, me) {
                prev.push(Cell { x: (x - 1) as i32, y: y as i32, occupied_by: self.owner(x - 1, y) })
            } else {
                prev
            }
        }
    }

    /// The exposed cells of the first `y` rows, in row-major order.
    pub open spec fn frontier_rows(&self, me: int, y: int) -> Seq<Cell>
        decreases y,
    {
        if y <= 0 {
            Seq::empty()
        } else {
            self.frontier_rows(me, y - 1) + self.frontier_row(me, y - 1, self.width as int)
        }
    }

    /// The frontier for `me`: every exposed cell of the board, in row-major order.
    pub open spec fn frontier(&self, me: int) -> Seq<Cell> {
        self.frontier_rows(me, self.height as int)
    }

    /// The empty cells among the first `k` neighbours of `(x, y)`.
    pub open spec fn open_upto(&self, x: int, y: int, k: int) -> Seq<Cell>
        decreases k,
    {
        if k <= 0 {
            Seq::empty()
        } else {
            let nx = x + nb_dx(k - 1);
            let ny = y + nb_dy(k - 1);
            let prev = self.open_upto(x, y, k - 1);
            if self.in_bounds(nx, ny) && self.owner(nx, ny) == EMPTY {
                prev.push(Cell { x: nx as i32, y: ny as i32, occupied_by: EMPTY })
            } else {
                prev
            }
        }
    }

    /// The empty neighbours of `(x, y)` when the cell is not `me`'s, else nothing.
    pub open spec fn border_at(&self, x: int, y: int, me: int) -> Seq<Cell> {
        if self.owner(x, y) != me {
            self.open_upto(x, y, 8)
        } else {
            Seq::empty()
        }
    }

    /// The border cells contributed by the first `x` cells of row `y`.
    pub open spec fn border_row(&self, me: int, y: int, x: int) -> Seq<Cell>
        decreases x,
    {
        if x <= 0 {
            Seq::empty()
        } else {
            self.border_row(me, y, x - 1) + self.border_at(x - 1, y, me)
        }
    }

    /// The border cells contributed by the first `y` rows.
    pub open spec fn border_rows(&self, me: int, y: int) -> Seq<Cell>
        decreases y,
    {
        if y <= 0 {
            Seq::empty()
        } else {
            self.border_rows(me, y - 1) + self.border_row(me, y - 1, self.width as int)
        }
    }

    /// A positive touch count within a row has a touching cell.
    pub proof fn lemma_touch_row_witness(&self, ax: int, ay: int, me: int, p: PieceView, i: int, j: int)
        requires
            self.touch_row(ax, ay, me, p, i, j) > 0,
        ensures
            exists|j2: int| 0 <= j2 < j && #[trigger] self.cell_touches(ax, ay, me, p, i, j2),
        decreases j,
    {
        if j > 0 && !self.cell_touches(ax, ay, me, p, i, j - 1) {
            self.lemma_touch_row_witness(ax, ay, me, p, i, j - 1);
        }
    }

    /// A positive touch count has a touching cell.
    pub proof fn lemma_touch_witness(&self, ax: int, ay: int, me: int, p: PieceView, i: int)
        requires
            self.touch_rows(ax, ay, me, p, i) > 0,
        ensures
            exists|i2: int, j2: int|
                0 <= i2 < i && 0 <= j2 < p.width && #[trigger] self.cell_touches(
                    ax,
                    ay,
                    me,
                    p,
                    i2,
                    j2,
                ),
        decreases i,
    {
        if i > 0 {
            if self.touch_row(ax, ay, me, p, i - 1, p.width as int) > 0 {
                self.lemma_touch_row_witness(ax, ay, me, p, i - 1, p.width as int);
            } else {
                self.lemma_touch_witness(ax, ay, me, p, i - 1);
            }
        }
    }

    /// The legal anchors for `me` among the first `x` cells of row `y`.
    pub open spec fn anchors_row(&self, me: int, p: PieceView, y: int, x: int) -> Seq<(int, int)>
        decreases x,
    {
        if x <= 0 {
            Seq::empty()
        } else {
            let prev = self.anchors_row(me, p, y, x - 1);
            if self.legal(x - 1, y, me, p) {
                prev.push((x - 1, y))
            } else {
                prev
            }
        }
    }

    /// The legal anchors for `me` in the first `y` rows, in row-major order.
    pub open spec fn anchors_rows(&self, me: int, p: PieceView, y: int) -> Seq<(int, int)>
        decreases y,
    {
        if y <= 0 {
            Seq::empty()
        } else {
            self.anchors_rows(me, p, y - 1) + self.anchors_row(me, p, y - 1, self.width as int)
        }
    }

    /// Every anchor of the board where `me` may place `p`, in row-major order.
    pub open spec fn anchors(&self, me: int, p: PieceView) -> Seq<(int, int)> {
        self.anchors_rows(me, p, self.height as int)
    }

    /// `e` is the scored candidate for anchor `a` of `p`, placed by `me`.
    pub open spec fn is_candidate(&self, me: int, p: PieceView, e: (Position, i128), a: (int, int)) -> bool {
        &&& e.0.x == a.0
        &&& e.0.y == a.1
        &&& e.0.robot_idx == me
        &&& e.0.piece@ == p
        &&& e.1 == e.0.score_of(*self, me)
    }

    /// `s` holds the scored candidates for the anchors `a`, in the same order.
    pub open spec fn candidates_for(&self, me: int, p: PieceView, s: Seq<(Position, i128)>, a: Seq<(int, int)>) -> bool {
        &&& s.len() == a.len()
        &&& forall|k: int| 0 <= k < s.len() ==> #[trigger] self.is_candidate(me, p, s[k], a[k])
    }

    /// A board of `width` by `height` empty cells, with no exposed cells.
    pub fn new(width: i32, height: i32) -> (r: Anfield)
        requires
            0 <= width,
            0 <= height,
        ensures
            r.wf(),
            r.width == width,
            r.height == height,
            r.opp_occupation@.len() == 0,
            forall|x: int, y: int| r.in_bounds(x, y) ==> r.owner(x, y) == EMPTY,
    {
        let mut occupation: Vec<Vec<i32>> = Vec::new();
        let mut y: i32 = 0;
        while y < height
            invariant
                0 <= y <= height,
                0 <= width,
                occupation@.len() == y,
                forall|r: int| 0 <= r < y ==> #[trigger] occupation@[r]@.len() == width,
                forall|r: int, x: int|
                    0 <= r < y && 0 <= x < width ==> #[trigger] occupation@[r]@[x] == EMPTY,
            decreases height - y,
        {
            let mut row: Vec<i32> = Vec::new();
            let mut x: i32 = 0;
            while x < width
                invariant
                    0 <= x <= width,
                    0 <= width,
                    row@.len() == x,
                    forall|c: int| 0 <= c < x ==> row@[c] == EMPTY,
                decreases width - x,
            {
                row.push(EMPTY);
                x = x + 1;
            }
            occupation.push(row);
            y = y + 1;
        }
        Anfield { width, height, occupation, opp_occupation: Vec::new() }
    }

    /// The owner of `(x, y)`, or `None` off the board.
    pub fn owner_of(&self, x: i64, y: i64) -> (r: Option<i32>)
        requires
            self.wf(),
        ensures
            r == if self.in_bounds(x as int, y as int) {
                Some(self.owner(x as int, y as int))
            } else {
                None::<i32>
            },
    {
        if 0 <= x && x < self.width as i64 && 0 <= y && y < self.height as i64 {
            Some(self.occupation[y as usize][x as usize])
        } else {
            None
        }
    }

    /// The number of empty cells among the eight neighbours of `(x, y)`.
    pub fn count_empty_neighbours(&self, x: i64, y: i64) -> (r: u64)
        requires
            self.wf(),
            i32::MIN <= x <= i32::MAX,
            i32::MIN <= y <= i32::MAX,
        ensures
            r == self.empty_neighbours(x as int, y as int),
            r <= 8,
    {
        let mut n: u64 = 0;
        let mut k: usize = 0;
        while k < 8
            invariant
                self.wf(),
                k <= 8,
                i32::MIN <= x <= i32::MAX,
                i32::MIN <= y <= i32::MAX,
                n == self.empty_upto(x as int, y as int, k as int),
                n <= k,
            decreases 8 - k,
        {
            let (dx, dy) = neighbour_offset(k);
            if let Some(o) = self.owner_of(x + dx, y + dy) {
                if o == EMPTY {
                    n = n + 1;
                }
            }
            k = k + 1;
        }
        n
    }
}

impl Anfield {
    /// Whether `piece` may be placed with its top-left corner at `coord` by `robot`.
    pub fn can_place(&self, coord: (i32, i32), robot: &Robot, piece: &Piece) -> (r: bool)
        requires
            self.wf(),
            piece.wf(),
        ensures
            r == self.legal(coord.0 as int, coord.1 as int, robot.id as int, piece@),
    {
        let ghost ax = coord.0 as int;
        let ghost ay = coord.1 as int;
        let ghost me = robot.id as int;
        let ghost p = piece@;
        // the touch count so far, capped at 2
        let mut touch: u64 = 0;
        let mut i: i32 = 0;
        while i < piece.height
            invariant
                self.wf(),
                piece.wf(),
                p == piece@,
                ax == coord.0,
                ay == coord.1,
                me == robot.id,
                0 <= i <= piece.height,
                forall|i2: int, j2: int|
                    0 <= i2 < i && 0 <= j2 < piece.width ==> #[trigger] self.cell_fits(
                        ax,
                        ay,
                        me,
                        p,
                        i2,
                        j2,
                    ),
                touch == cap2(self.touch_rows(ax, ay, me, p, i as int)),
            decreases piece.height - i,
        {
            proof {
                piece.lemma_row(i as int);
            }
            let row = &piece.cells[i as usize];
            let mut j: i32 = 0;
            while j < piece.width
                invariant
                    self.wf(),
                    piece.wf(),
                    p == piece@,
                    ax == coord.0,
                    ay == coord.1,
                    me == robot.id,
                    0 <= i < piece.height,
                    0 <= j <= piece.width,
                    row@ == p.shape[i as int],
                    row@.len() == piece.width,
                    forall|i2: int, j2: int|
                        0 <= i2 < i && 0 <= j2 < piece.width ==> #[trigger] self.cell_fits(
                            ax,
                            ay,
                            me,
                            p,
                            i2,
                            j2,
                        ),
                    forall|j2: int| 0 <= j2 < j ==> #[trigger] self.cell_fits(ax, ay, me, p, i as int, j2),
                    touch == cap2(
                        self.touch_rows(ax, ay, me, p, i as int) + self.touch_row(
                            ax,
                            ay,
                            me,
                            p,
                            i as int,
                            j as int,
                        ),
                    ),
                decreases piece.width - j,
            {
                if row[j as usize] != '.' {
                    let x = coord.0 as i64 + j as i64;
                    let y = coord.1 as i64 + i as i64;
                    match self.owner_of(x, y) {
                        None => {
                            assert(!self.cell_fits(ax, ay, me, p, i as int, j as int));
                            return false;
                        },
                        Some(o) => {
                            if o == robot.id {
                                if touch < 2 {
                                    touch = touch + 1;
                                }
                            } else if o != EMPTY {
                                assert(!self.cell_fits(ax, ay, me, p, i as int, j as int));
                                return false;
                            }
                        },
                    }
                }
                j = j + 1;
            }
            i = i + 1;
        }
        touch == 1
    }

    /// The exposed cells for `me`, scanning the board row by row.
    fn exposed_cells(&self, me: i32) -> (r: Vec<Cell>)
        requires
            self.wf(),
        ensures
            r@ == self.frontier(me as int),
    {
        let mut out: Vec<Cell> = Vec::new();
        let mut y: i32 = 0;
        while y < self.height
            invariant
                self.wf(),
                0 <= y <= self.height,
                out@ == self.frontier_rows(me as int, y as int),
            decreases self.height - y,
        {
            let row = &self.occupation[y as usize];
            let mut x: i32 = 0;
            while x < self.width
                invariant
                    self.wf(),
                    0 <= y < self.height,
                    0 <= x <= self.width,
                    row@ == self.occupation@[y as int]@,
                    out@ == self.frontier_rows(me as int, y as int) + self.frontier_row(
                        me as int,
                        y as int,
                        x as int,
                    ),
                decreases self.width - x,
            {
                let o = row[x as usize];
                if o != EMPTY && o != me {
                    let e = self.count_empty_neighbours(x as i64, y as i64);
                    if e > 2 {
                        out.push(Cell::new(x, y, o));
                    }
                }
                x = x + 1;
            }
            y = y + 1;
        }
        out
    }

    /// Every anchor where `robot` may place `piece`, in row-major order,
    /// each with the score of placing the piece there.
    pub fn potential_positions(&self, piece: &Piece, robot: &Robot) -> (r: Vec<(Position, i128)>)
        requires
            self.wf(),
            piece.wf(),
        ensures
            self.candidates_for(robot.id as int, piece@, r@, self.anchors(robot.id as int, piece@)),
    {
        let ghost me = robot.id as int;
        let ghost p = piece@;
        let mut out: Vec<(Position, i128)> = Vec::new();
        let mut y: i32 = 0;
        while y < self.height
            invariant
                self.wf(),
                piece.wf(),
                    me == robot.id,
                p == piece@,
                0 <= y <= self.height,
                self.candidates_for(me, p, out@, self.anchors_rows(me, p, y as int)),
            decreases self.height - y,
        {
            let mut x: i32 = 0;
            while x < self.width
                invariant
                    self.wf(),
                    piece.wf(),
                            me == robot.id,
                    p == piece@,
                    0 <= y < self.height,
                    0 <= x <= self.width,
                    self.candidates_for(
                        me,
                        p,
                        out@,
                        self.anchors_rows(me, p, y as int) + self.anchors_row(me, p, y as int, x as int),
                    ),
                decreases self.width - x,
            {
                let ghost before = self.anchors_rows(me, p, y as int) + self.anchors_row(
                    me,
                    p,
                    y as int,
                    x as int,
                );
                if self.can_place((x, y), robot, piece) {
                    let pos = Position { x, y, robot_idx: robot.id, piece: piece.copy() };
                    let s = pos.score(self, robot);
                    out.push((pos, s));
                    proof {
                        let after = self.anchors_rows(me, p, y as int) + self.anchors_row(
                            me,
                            p,
                            y as int,
                            x + 1,
                        );
                        assert(after =~= before.push((x as int, y as int)));
                        assert forall|k: int| 0 <= k < out@.len() implies #[trigger] self.is_candidate(
                            me,
                            p,
                            out@[k],
                            after[k],
                        ) by {
                            if k < before.len() {
                                assert(self.is_candidate(me, p, out@[k], before[k]));
                            }
                        }
                    }
                } else {
                    proof {
                        let after = self.anchors_rows(me, p, y as int) + self.anchors_row(
                            me,
                            p,
                            y as int,
                            x + 1,
                        );
                        assert(after =~= before);
                    }
                }
                x = x + 1;
            }
            proof {
                assert(self.anchors_rows(me, p, y as int) + self.anchors_row(
                    me,
                    p,
                    y as int,
                    self.width as int,
                ) =~= self.anchors_rows(me, p, y + 1));
            }
            y = y + 1;
        }
        out
    }

    /// Recomputes the frontier for `robot`: the cells of the other player
    /// that have more than two empty neighbours.
    pub fn update_opp_occupation(&mut self, robot: &Robot)
        requires
            old(self).wf(),
        ensures
            final(self).wf(),
            final(self).width == old(self).width,
            final(self).height == old(self).height,
            final(self).occupation == old(self).occupation,
            final(self).opp_occupation@ == old(self).frontier(robot.id as int),
    {
        let cells = self.exposed_cells(robot.id);
        self.opp_occupation = cells;
    }

    /// For every cell that is not `robot`'s, its empty neighbours, scanning
    /// the board row by row; a cell appears once for each such neighbour.
    pub fn get_opponent_border(&self, robot: &Robot) -> (r: Vec<Cell>)
        requires
            self.wf(),
        ensures
            r@ == self.border_rows(robot.id as int, self.height as int),
    {
        let ghost me = robot.id as int;
        let mut out: Vec<Cell> = Vec::new();
        let mut y: i32 = 0;
        while y < self.height
            invariant
                self.wf(),
                me == robot.id,
                0 <= y <= self.height,
                out@ == self.border_rows(me, y as int),
            decreases self.height - y,
        {
            let mut x: i32 = 0;
            while x < self.width
                invariant
                    self.wf(),
                    me == robot.id,
                    0 <= y < self.height,
                    0 <= x <= self.width,
                    out@ == self.border_rows(me, y as int) + self.border_row(me, y as int, x as int),
                decreases self.width - x,
            {
                let ghost before = out@;
                if self.occupation[y as usize][x as usize] != robot.id {
                    let mut k: usize = 0;
                    while k < 8
                        invariant
                            self.wf(),
                            0 <= y < self.height,
                            0 <= x < self.width,
                            k <= 8,
                            out@ == before + self.open_upto(x as int, y as int, k as int),
                        decreases 8 - k,
                    {
                        let (dx, dy) = neighbour_offset(k);
                        let nx = x as i64 + dx;
                        let ny = y as i64 + dy;
                        if let Some(o) = self.owner_of(nx, ny) {
                            if o == EMPTY {
                                out.push(Cell::new(nx as i32, ny as i32, EMPTY));
                            }
                        }
                        proof {
                            assert(self.open_upto(x as int, y as int, k + 1) =~= if self.in_bounds(
                                x + nb_dx(k as int),
                                y + nb_dy(k as int),
                            ) && self.owner(x + nb_dx(k as int), y + nb_dy(k as int)) == EMPTY {
                                self.open_upto(x as int, y as int, k as int).push(
                                    Cell {
                                        x: (x + nb_dx(k as int)) as i32,
                                        y: (y + nb_dy(k as int)) as i32,
                                        occupied_by: EMPTY,
                                    },
                                )
                            } else {
                                self.open_upto(x as int, y as int, k as int)
                            });
                        }
                        k = k + 1;
                    }
                }
                assert(out@ =~= self.border_rows(me, y as int) + self.border_row(
                    me,
                    y as int,
                    x + 1,
                ));
                x = x + 1;
            }
            assert(out@ =~= self.border_rows(me, y + 1));
            y = y + 1;
        }
        out
    }
}

impl Cell {
    pub fn new(x: i32, y: i32, robot_idx: i32) -> (r: Cell)
        ensures
            r == (Cell { x, y, occupied_by: robot_idx }),
    {
        Cell { x, y, occupied_by: robot_idx }
    }

    /// The neighbours of this cell that lie on the board, with their owners,
    /// in row-major order.
    pub fn get_neightboor(&self, anfield: &Anfield) -> (r: Vec<Cell>)
        requires
            anfield.wf(),
        ensures
            r@ == anfield.neighbours(self.x as int, self.y as int),
    {
        let mut neighbours: Vec<Cell> = Vec::new();
        let mut k: usize = 0;
        while k < 8
            invariant
                anfield.wf(),
                k <= 8,
                neighbours@ == anfield.neighbours_upto(self.x as int, self.y as int, k as int),
            decreases 8 - k,
        {
            let (dx, dy) = neighbour_offset(k);
            let nx = self.x as i64 + dx;
            let ny = self.y as i64 + dy;
            if let Some(o) = anfield.owner_of(nx, ny) {
                neighbours.push(Cell::new(nx as i32, ny as i32, o));
            }
            k = k + 1;
        }
        neighbours
    }

    /// How much a cell owned by `occupied_by` at this place would press on
    /// the other player: for each neighbour held by another player, `20 / 8`
    /// of that neighbour's empty neighbours, the total divided by 8.
    pub fn blocking_potential(&self, anfield: &Anfield) -> (r: i32)
        requires
            anfield.wf(),
        ensures
            r == anfield.blocking_at(self.x as int, self.y as int, self.occupied_by as int),
            0 <= r <= 20,
    {
        let mut total: i32 = 0;
        let mut k: usize = 0;
        while k < 8
            invariant
                anfield.wf(),
                k <= 8,
                total == anfield.pressure_upto(
                    self.x as int,
                    self.y as int,
                    self.occupied_by as int,
                    k as int,
                ),
                0 <= total <= 20 * k,
            decreases 8 - k,
        {
            let (dx, dy) = neighbour_offset(k);
            let nx = self.x as i64 + dx;
            let ny = self.y as i64 + dy;
            if let Some(o) = anfield.owner_of(nx, ny) {
                if o != self.occupied_by && o != EMPTY {
                    let e = anfield.count_empty_neighbours(nx, ny);
                    total = total + (20 * e / 8) as i32;
                }
            }
            k = k + 1;
        }
        total / 8
    }
}

} // verus!
