use vstd::prelude::*;

verus! {

/// The shape that must be placed this turn: `height` rows of `width`
/// characters, where `'.'` marks an empty cell and anything else a filled one.
#[derive(Debug, Clone, PartialEq, Eq)]
pub struct Piece {
    pub width: i32,
    pub height: i32,
    pub cells: Vec<Vec<char>>,
}

/// What a piece is: its declared size and its rows of characters.
pub struct PieceView {
    pub width: int,
    pub height: int,
    pub shape: Seq<Seq<char>>,
}

impl PieceView {
    /// Whether the footprint cell at row `i`, column `j` is filled.
    pub open spec fn filled(&self, i: int, j: int) -> bool {
        self.shape[i][j] != '.'
    }
}

impl View for Piece {
    type V = PieceView;

    open spec fn view(&self) -> PieceView {
        PieceView { width: self.width as int, height: self.height as int, shape: self.shape() }
    }
}

impl Piece {
    /// The footprint as rows of characters.
    pub open spec fn shape(&self) -> Seq<Seq<char>> {
        self.cells.deep_view()
    }

    /// Row `i` of the shape is the characters of row `i` of `cells`.
    pub proof fn lemma_row(&self, i: int)
        requires
            0 <= i < self.cells@.len(),
        ensures
            self.shape()[i] == self.cells@[i]@,
            self.shape().len() == self.cells@.len(),
    {
        assert(self.shape()[i] =~= self.cells@[i]@);
    }

    /// The footprint is a rectangle whose size matches `width` and `height`.
    pub open spec fn wf(&self) -> bool {
        &&& 0 <= self.width
        &&& 0 <= self.height
        &&& self.shape().len() == self.height
        &&& forall|i: int| 0 <= i < self.height ==> #[trigger] self.shape()[i].len() == self.width
    }

    /// Builds a piece from its rows; the width is the length of the first
    /// row, or zero when there is none.
    pub fn new(cells: Vec<Vec<char>>) -> (p: Piece)
        requires
            cells@.len() <= i32::MAX,
            cells@.len() > 0 ==> cells@[0]@.len() <= i32::MAX,
            forall|i: int| 0 <= i < cells@.len() ==> #[trigger] cells@[i]@.len() == cells@[0]@.len(),
        ensures
            p.wf(),
            p.cells == cells,
            p.shape() == cells.deep_view(),
            p.height == cells@.len(),
            p.width == if cells@.len() == 0 { 0 } else { cells@[0]@.len() as int },
    {
        let mut w: usize = 0;
        if cells.len() > 0 {
            w = cells[0].len();
        }
        let h = cells.len();
        proof {
            assert forall|i: int| 0 <= i < h implies #[trigger] cells.deep_view()[i].len() == w by {
                assert(cells.deep_view()[i] == cells@[i].deep_view());
            }
        }
        Piece { width: w as i32, height: h as i32, cells }
    }

    /// A copy of this piece with the same footprint.
    pub fn copy(&self) -> (r: Piece)
        ensures
            r@ == self@,
    {
        let cells = self.cells.clone();
        proof {
            assert(cells.deep_view() =~= self.cells.deep_view());
        }
        Piece { width: self.width, height: self.height, cells }
    }
}

} // verus!
