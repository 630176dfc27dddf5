use vstd::prelude::*;

use crate::anfield::{valid_owner, Anfield};
use crate::board::{marker_seq, markers, row_owner};
use crate::piece::Piece;
use crate::robot::Robot;
use crate::scoring::{best_move, picked, Position};
use crate::text::{
    all_digits, chars_of, contains, lemma_size_nonneg, has_infix, has_prefix, size_line, size_of, starts_with, strip,
    stripped, Strip,
};

verus! {

/// What a line of a turn announces.
#[derive(Debug, Clone, Copy, PartialEq, Eq, Structural)]
pub enum LineKind {
    /// `$$$ exec p1 : [name]`: which player this program is.
    Marker,
    /// `Anfield 20 15:`: the size of the board, width first.
    GridSize,
    /// The column numbers above the board, or a blank line.
    ColumnHeader,
    /// `Piece 2 3:`: the size of the piece, width first.
    PieceSize,
    /// A row of the board or of the piece.
    Body,
}

/// What the lines read so far are feeding.
#[derive(Debug, Clone, Copy, PartialEq, Eq, Structural)]
pub enum Mode {
    Idle,
    Grid,
    Piece,
}

/// Where the program stands in the game.
#[derive(Debug, Clone, Copy, PartialEq, Eq, Structural)]
pub enum Phase {
    /// No turn read, and no player known.
    Uninitialized,
    /// The player is known, but no turn has been taken in yet.
    IdentityKnown,
    /// At least one turn has been taken in.
    Playing,
}

/// Why a turn was refused.
#[derive(Debug, Clone, Copy, PartialEq, Eq, Structural)]
pub enum ParseError {
    /// The board's size line does not hold two positive numbers.
    GridSize,
    /// The turn has no piece.
    NoPiece,
    /// The piece's size line does not hold two numbers.
    PieceSize,
    /// The piece has more or fewer rows than its size line says.
    PieceRows,
    /// A row of the piece is longer or shorter than its size line says.
    PieceWidth,
}

/// The parts of a turn: the last marker line, the last board size line,
/// the board rows after the last column header, the last piece size line
/// and the trimmed piece rows after it.
pub struct Sections {
    pub marker: Option<Seq<char>>,
    pub grid_size: Option<Seq<char>>,
    pub grid_rows: Seq<Seq<char>>,
    pub piece_size: Option<Seq<char>>,
    pub piece_rows: Seq<Seq<char>>,
    pub mode: Mode,
}

pub open spec fn kind_of(l: Seq<char>) -> LineKind {
    if starts_with(l, seq!['$', '$', '$']) {
        LineKind::Marker
    } else if starts_with(l, seq!['A', 'n', 'f', 'i', 'e', 'l', 'd']) {
        LineKind::GridSize
    } else if all_digits(stripped(l, Strip::NonSpace)) {
        LineKind::ColumnHeader
    } else if starts_with(l, seq!['P', 'i', 'e', 'c', 'e']) {
        LineKind::PieceSize
    } else {
        LineKind::Body
    }
}

/// The parts of a turn after one more line.
pub open spec fn step(s: Sections, l: Seq<char>) -> Sections {
    match kind_of(l) {
        LineKind::Marker => Sections { marker: Some(l), ..s },
        LineKind::GridSize => Sections { grid_size: Some(l), ..s },
        LineKind::ColumnHeader => Sections { grid_rows: Seq::empty(), mode: Mode::Grid, ..s },
        LineKind::PieceSize => Sections {
            piece_size: Some(l),
            piece_rows: Seq::empty(),
            mode: Mode::Piece,
            ..s
        },
        LineKind::Body => match s.mode {
            Mode::Grid => Sections { grid_rows: s.grid_rows.push(l), ..s },
            Mode::Piece => Sections {
                piece_rows: s.piece_rows.push(stripped(l, Strip::NonSpace)),
                ..s
            },
            Mode::Idle => s,
        },
    }
}

/// The parts of a turn made of `lines`.
pub open spec fn sections(lines: Seq<Seq<char>>) -> Sections
    decreases lines.len(),
{
    if lines.len() == 0 {
        Sections {
            marker: None,
            grid_size: None,
            grid_rows: Seq::empty(),
            piece_size: None,
            piece_rows: Seq::empty(),
            mode: Mode::Idle,
        }
    } else {
        step(sections(lines.drop_last()), lines.last())
    }
}

/// The characters of each line.
pub open spec fn text_of(lines: Seq<String>) -> Seq<Seq<char>> {
    lines.map_values(|s: String| s@)
}

/// Why the turn made of these parts is refused, if it is.
pub open spec fn turn_error(s: Sections) -> Option<ParseError> {
    let bad_grid = match s.grid_size {
        Some(l) => match size_of(l) {
            Some((w, h)) => w <= 0 || h <= 0,
            None => true,
        },
        None => false,
    };
    if bad_grid {
        Some(ParseError::GridSize)
    } else {
        match s.piece_size {
            None => Some(ParseError::NoPiece),
            Some(l) => match size_of(l) {
                None => Some(ParseError::PieceSize),
                Some((pw, ph)) => if ph != s.piece_rows.len() {
                    Some(ParseError::PieceRows)
                } else if exists|i: int|
                    0 <= i < s.piece_rows.len() && #[trigger] s.piece_rows[i].len() != pw {
                    Some(ParseError::PieceWidth)
                } else {
                    None
                },
            },
        }
    }
}

/// The player named by marker line `m`: player 1 when the line names `p1`
/// and this program's `name`, else player 2.
pub open spec fn player_of(m: Seq<char>, name: Seq<char>) -> i32 {
    if contains(m, seq!['p', '1']) && contains(m, name) {
        1
    } else {
        2
    }
}

/// The other player.
pub open spec fn other_player(id: i32) -> i32 {
    if id == 1 {
        2
    } else {
        1
    }
}

/// `(x, y)` is the first cell of `id` on `g` in row-major order.
pub open spec fn is_first_cell(g: Anfield, id: i32, x: int, y: int) -> bool {
    &&& g.in_bounds(x, y)
    &&& g.owner(x, y) == id
    &&& forall|x2: int, y2: int|
        g.in_bounds(x2, y2) && (y2 < y || (y2 == y && x2 < x)) ==> #[trigger] g.owner(x2, y2)
            != id
}

/// `g` holds no cell of `id`.
pub open spec fn no_cell(g: Anfield, id: i32) -> bool {
    forall|x: int, y: int| g.in_bounds(x, y) ==> #[trigger] g.owner(x, y) != id
}

/// `r` is `before` with its starting point set to the first cell of its
/// id on `g`, when there is one.
pub open spec fn started_on(r: Robot, before: Robot, g: Anfield) -> bool {
    &&& r.id == before.id
    &&& r.characters == before.characters
    &&& no_cell(g, before.id) ==> r == before
    &&& forall|x: int, y: int|
        #[trigger] is_first_cell(g, before.id, x, y) ==> r.starting_point == (x as i32, y as i32)
            && r.area == ((x as i32, y as i32), (x as i32, y as i32))
}

/// The first cell of `id` on `g`, in row-major order.
pub fn first_cell(g: &Anfield, id: i32) -> (r: Option<(i32, i32)>)
    requires
        g.wf(),
    ensures
        r matches Some(c) ==> is_first_cell(*g, id, c.0 as int, c.1 as int),
        r is None ==> no_cell(*g, id),
{
    let mut y: i32 = 0;
    while y < g.height
        invariant
            g.wf(),
            0 <= y <= g.height,
            forall|x2: int, y2: int| g.in_bounds(x2, y2) && y2 < y ==> #[trigger] g.owner(x2, y2) != id,
        decreases g.height - y,
    {
        let mut x: i32 = 0;
        while x < g.width
            invariant
                g.wf(),
                0 <= y < g.height,
                0 <= x <= g.width,
                forall|x2: int, y2: int|
                    g.in_bounds(x2, y2) && (y2 < y || (y2 == y && x2 < x)) ==> #[trigger] g.owner(
                        x2,
                        y2,
                    ) != id,
            decreases g.width - x,
        {
            if g.occupation[y as usize][x as usize] == id {
                return Some((x, y));
            }
            x = x + 1;
        }
        y = y + 1;
    }
    None
}

/// The kind of line `l`.
pub fn line_kind(l: &Vec<char>) -> (r: LineKind)
    ensures
        r == kind_of(l@),
{
    if has_prefix(l, &vec!['$', '$', '$']) {
        return LineKind::Marker;
    }
    if has_prefix(l, &vec!['A', 'n', 'f', 'i', 'e', 'l', 'd']) {
        return LineKind::GridSize;
    }
    let t = strip(l, Strip::NonSpace);
    let mut i: usize = 0;
    let mut digits = true;
    while i < t.len()
        invariant
            i <= t@.len(),
            digits == forall|m: int| 0 <= m < i ==> ('0' <= #[trigger] t@[m] <= '9'),
        decreases t@.len() - i,
    {
        if !('0' <= t[i] && t[i] <= '9') {
            digits = false;
        }
        i = i + 1;
    }
    if digits {
        return LineKind::ColumnHeader;
    }
    if has_prefix(l, &vec!['P', 'i', 'e', 'c', 'e']) {
        return LineKind::PieceSize;
    }
    LineKind::Body
}

/// The game as this program sees it: the board and piece of the current
/// turn, both players, and whether the first turn has been read.
#[derive(Debug, Clone)]
pub struct State {
    pub anfield: Anfield,
    pub robot: Robot,
    pub opponent: Robot,
    pub current_piece: Piece,
    pub started: bool,
}

proof fn lemma_chars_deep_view(v: &Vec<char>)
    ensures
        v.deep_view() == v@,
{
    assert(v.deep_view() =~= v@);
}

/// The text of an optional line.
pub open spec fn line_view(o: Option<Vec<char>>) -> Option<Seq<char>> {
    match o {
        Some(v) => Some(v@),
        None => None,
    }
}

impl State {
    pub open spec fn wf(&self) -> bool {
        &&& self.anfield.wf()
        &&& self.current_piece.wf()
        &&& valid_owner(self.robot.id)
    }

    /// `self` is what reading a turn made of parts `sec` leaves of `old`,
    /// for a program called `name`, when the turn is not refused.
    pub open spec fn parsed_from(&self, old: State, sec: Sections, name: Seq<char>) -> bool {
        let resolves = !old.started && sec.marker is Some;
        let id = if resolves {
            player_of(sec.marker->0, name)
        } else {
            old.robot.id
        };
        let oid = if resolves {
            other_player(id)
        } else {
            old.opponent.id
        };
        let me = if resolves {
            Robot {
                id,
                characters: self.robot.characters,
                area: ((0i32, 0i32), (0i32, 0i32)),
                starting_point: (0i32, 0i32),
            }
        } else {
            old.robot
        };
        let them = if resolves {
            Robot {
                id: oid,
                characters: self.opponent.characters,
                area: ((0i32, 0i32), (0i32, 0i32)),
                starting_point: (0i32, 0i32),
            }
        } else {
            old.opponent
        };
        &&& self.started
        &&& self.robot.id == id
        &&& self.opponent.id == oid
        &&& resolves ==> self.robot.characters@ == marker_seq(id) && self.opponent.characters@
            == marker_seq(oid)
        &&& old.started ==> self.robot == old.robot && self.opponent == old.opponent
        &&& !old.started ==> started_on(self.robot, me, self.anfield) && started_on(
            self.opponent,
            them,
            self.anfield,
        )
        &&& match sec.grid_size {
            Some(l) => {
                &&& size_of(l) matches Some((w, h))
                &&& self.anfield.width == w
                &&& self.anfield.height == h
                &&& self.anfield.opp_occupation@.len() == 0
                &&& forall|x: int, y: int|
                    self.anfield.in_bounds(x, y) ==> #[trigger] self.anfield.owner(x, y)
                        == row_owner(sec.grid_rows, x, y, me)
            },
            None => self.anfield == old.anfield,
        }
        &&& match sec.piece_size {
            Some(l) => size_of(l) matches Some((pw, ph)) && self.current_piece.width == pw
                && self.current_piece.height == ph && self.current_piece@.shape == sec.piece_rows,
            None => false,
        }
    }

    /// The phase this state is in: playing once a turn has been read,
    /// else whether a player has been named.
    pub fn phase(&self) -> (r: Phase)
        ensures
            self.started ==> r == Phase::Playing,
            !self.started && self.robot.id == 0 ==> r == Phase::Uninitialized,
            !self.started && self.robot.id != 0 ==> r == Phase::IdentityKnown,
    {
        if self.started {
            Phase::Playing
        } else if self.robot.id == 0 {
            Phase::Uninitialized
        } else {
            Phase::IdentityKnown
        }
    }

    /// The state before the first turn: no board, no piece, no player known.
    pub fn new() -> (r: State)
        ensures
            r.wf(),
            !r.started,
            r.robot.id == 0,
            r.opponent.id == 0,
            r.anfield.width == 0,
            r.anfield.height == 0,
            r.current_piece.width == 0,
            r.current_piece.height == 0,
            r.anfield.opp_occupation@.len() == 0,
            r.robot == r.opponent,
            r.robot.starting_point == (0i32, 0i32),
            r.robot.area == ((0i32, 0i32), (0i32, 0i32)),
    {
        let nobody = Robot::new(0, ['\0', '\0']);
        State {
            anfield: Anfield::new(0, 0),
            robot: nobody,
            opponent: nobody,
            current_piece: Piece::new(Vec::new()),
            started: false,
        }
    }

    /// Reads one turn, `lines`, for the program called `name`.
    ///
    /// On the first turn a marker line tells which player this program is,
    /// and the first cell of each player on the board becomes its starting
    /// point; later marker lines are ignored. A board size line replaces the
    /// board by the one its rows give; a turn without one keeps the board.
    /// A refused turn leaves the state as it was.
    #[verifier::loop_isolation(false)]
    pub fn parse(&mut self, lines: Vec<String>, name: &str) -> (r: Result<(), ParseError>)
        requires
            old(self).wf(),
        ensures
            final(self).wf(),
            match r {
                Err(e) => turn_error(sections(text_of(lines@))) == Some(e) && *final(self) == *old(
                    self,
                ),
                Ok(_) => turn_error(sections(text_of(lines@))) is None && final(self).parsed_from(
                    *old(self),
                    sections(text_of(lines@)),
                    name@,
                ),
            },
    {
        let ghost text = text_of(lines@);
        let ghost before_turn = *self;
        let mut marker: Option<Vec<char>> = None;
        let mut grid_size: Option<Vec<char>> = None;
        let mut grid_rows: Vec<Vec<char>> = Vec::new();
        let mut piece_size: Option<Vec<char>> = None;
        let mut piece_rows: Vec<Vec<char>> = Vec::new();
        let mut mode = Mode::Idle;
        let mut k: usize = 0;
        while k < lines.len()
            invariant
                k <= lines@.len(),
                text == text_of(lines@),
                line_view(marker) == sections(text.take(k as int)).marker,
                line_view(grid_size) == sections(text.take(k as int)).grid_size,
                grid_rows.deep_view() == sections(text.take(k as int)).grid_rows,
                line_view(piece_size) == sections(text.take(k as int)).piece_size,
                piece_rows.deep_view() == sections(text.take(k as int)).piece_rows,
                mode == sections(text.take(k as int)).mode,
            decreases lines@.len() - k,
        {
            let l = chars_of(lines[k].as_str());
            let ghost before = sections(text.take(k as int));
            proof {
                assert(text.take(k + 1).drop_last() =~= text.take(k as int));
                assert(text[k as int] == l@);
            }
            match line_kind(&l) {
                LineKind::Marker => {
                    marker = Some(l);
                },
                LineKind::GridSize => {
                    grid_size = Some(l);
                },
                LineKind::ColumnHeader => {
                    grid_rows = Vec::new();
                    mode = Mode::Grid;
                    assert(grid_rows.deep_view() =~= Seq::<Seq<char>>::empty());
                },
                LineKind::PieceSize => {
                    piece_size = Some(l);
                    piece_rows = Vec::new();
                    mode = Mode::Piece;
                    assert(piece_rows.deep_view() =~= Seq::<Seq<char>>::empty());
                },
                LineKind::Body => {
                    match mode {
                        Mode::Grid => {
                            let ghost old_rows = grid_rows.deep_view();
                            proof {
                                lemma_chars_deep_view(&l);
                            }
                            grid_rows.push(l);
                            assert(grid_rows.deep_view() =~= old_rows.push(text[k as int]));
                        },
                        Mode::Piece => {
                            let t = strip(&l, Strip::NonSpace);
                            let ghost old_rows = piece_rows.deep_view();
                            proof {
                                lemma_chars_deep_view(&t);
                            }
                            piece_rows.push(t);
                            assert(piece_rows.deep_view() =~= old_rows.push(
                                stripped(text[k as int], Strip::NonSpace),
                            ));
                        },
                        Mode::Idle => {},
                    }
                },
            }
            k = k + 1;
        }
        proof {
            assert(text.take(lines@.len() as int) =~= text);
        }
        let ghost sec = sections(text);
        // Check the whole turn before changing anything.
        let mut grid_dims: Option<(i32, i32)> = None;
        if let Some(gl) = &grid_size {
            match size_line(gl) {
                Some((w, h)) => {
                    if w <= 0 || h <= 0 {
                        return Err(ParseError::GridSize);
                    }
                    grid_dims = Some((w, h));
                },
                None => {
                    return Err(ParseError::GridSize);
                },
            }
        }
        let (pw, ph) = match &piece_size {
            None => {
                return Err(ParseError::NoPiece);
            },
            Some(pl) => match size_line(pl) {
                None => {
                    return Err(ParseError::PieceSize);
                },
                Some(d) => d,
            },
        };
        proof {
            lemma_size_nonneg(line_view(piece_size)->0);
        }
        if ph < 0 || ph as usize != piece_rows.len() {
            return Err(ParseError::PieceRows);
        }
        let mut i: usize = 0;
        while i < piece_rows.len()
            invariant
                i <= piece_rows@.len(),
                piece_rows.deep_view() == sec.piece_rows,
                forall|m: int| 0 <= m < i ==> #[trigger] piece_rows@[m]@.len() == pw,
            decreases piece_rows@.len() - i,
        {
            if pw < 0 || piece_rows[i].len() != pw as usize {
                assert(sec.piece_rows[i as int] == piece_rows@[i as int]@);
                return Err(ParseError::PieceWidth);
            }
            i = i + 1;
        }
        assert forall|m: int| 0 <= m < sec.piece_rows.len() implies #[trigger] sec.piece_rows[m].len()
            == pw by {
            assert(sec.piece_rows[m] == piece_rows@[m]@);
        }
        // The turn is sound: take it in.
        let first = !self.started;
        if first {
            if let Some(m) = &marker {
                let name_chars = chars_of(name);
                let id: i32 = if has_infix(m, &vec!['p', '1']) && has_infix(m, &name_chars) {
                    1
                } else {
                    2
                };
                let oid: i32 = if id == 1 {
                    2
                } else {
                    1
                };
                self.robot = Robot::new(id, markers(id));
                self.opponent = Robot::new(oid, markers(oid));
            }
        }
        let ghost me = self.robot;
        let ghost them = self.opponent;
        if let Some((w, h)) = grid_dims {
            self.anfield = Anfield::from_rows(w, h, &grid_rows, &self.robot);
        }
        self.current_piece = Piece { width: pw, height: ph, cells: piece_rows };
        if first {
            if let Some((x, y)) = first_cell(&self.anfield, self.robot.id) {
                self.robot.set_starting_point(x, y);
            }
            if let Some((x, y)) = first_cell(&self.anfield, self.opponent.id) {
                self.opponent.set_starting_point(x, y);
            }
        }
        self.started = true;
        Ok(())
    }

    /// This turn's move for this program: the frontier is recomputed, every
    /// anchor where the current piece may go is scored, and the best one is
    /// returned; `(0, 0)` when the piece fits nowhere.
    pub fn next_move(&mut self) -> (r: (i32, i32))
        requires
            old(self).wf(),
        ensures
            final(self).wf(),
            final(self).robot == old(self).robot,
            final(self).opponent == old(self).opponent,
            final(self).current_piece == old(self).current_piece,
            final(self).started == old(self).started,
            final(self).anfield.width == old(self).anfield.width,
            final(self).anfield.height == old(self).anfield.height,
            final(self).anfield.occupation == old(self).anfield.occupation,
            final(self).anfield.opp_occupation@ == old(self).anfield.frontier(old(self).robot.id as int),
            exists|s: Seq<(Position, i128)>|
                final(self).anfield.candidates_for(
                    old(self).robot.id as int,
                    old(self).current_piece@,
                    s,
                    final(self).anfield.anchors(old(self).robot.id as int, old(self).current_piece@),
                ) && picked(s, r),
    {
        self.anfield.update_opp_occupation(&self.robot);
        let candidates = self.anfield.potential_positions(&self.current_piece, &self.robot);
        best_move(&candidates)
    }
}

} // verus!
