use vstd::math::{max, min};
use vstd::prelude::*;

use crate::anfield::Anfield;
use crate::scoring::Position;


verus! {

/// One of the two players: its id, the two characters that mark its cells
/// on the board, the first cell it owned and the bounding box of its
/// territory, as `((min_x, min_y), (max_x, max_y))`.
#[derive(Debug, Clone, Copy)]
pub struct Robot {
    pub id: i32,
    pub characters: [char; 2],
    pub area: ((i32, i32), (i32, i32)),
    pub starting_point: (i32, i32),
}

/// Whether `c` is one of the marker characters `ch`.
pub open spec fn is_marker(ch: [char; 2], c: char) -> bool {
    c == ch@[0] || c == ch@[1]
}

impl Robot {
    pub fn new(id: i32, ch: [char; 2]) -> (r: Robot)
        ensures
            r.id == id,
            r.characters == ch,
            r.area == ((0i32, 0i32), (0i32, 0i32)),
            r.starting_point == (0i32, 0i32),
    {
        Robot { id, characters: ch, area: ((0, 0), (0, 0)), starting_point: (0, 0) }
    }

    /// Whether `c` marks one of this player's cells.
    pub fn owns_char(&self, c: char) -> (r: bool)
        ensures
            r == is_marker(self.characters, c),
    {
        c == self.characters[0] || c == self.characters[1]
    }

    /// Records the first cell of the player; its territory is that cell.
    pub fn set_starting_point(&mut self, x: i32, y: i32)
        ensures
            final(self).id == old(self).id,
            final(self).characters == old(self).characters,
            final(self).starting_point == (x, y),
            final(self).area == ((x, y), (x, y)),
    {
        self.starting_point = (x, y);
        self.area = ((x, y), (x, y));
    }

    /// Grows the territory's bounding box to take in the rectangle of
    /// `pos`'s footprint: a lower bound goes down to the footprint's first
    /// column or row, an upper bound up to its last one, or becomes the
    /// board's width (height) when the footprint reaches past the board.
    pub fn update_area(&mut self, pos: &Position, anfield: &Anfield)
        requires
            pos.piece.wf(),
            pos.x + pos.piece.width <= i32::MAX,
            pos.y + pos.piece.height <= i32::MAX,
        ensures
            final(self).id == old(self).id,
            final(self).characters == old(self).characters,
            final(self).starting_point == old(self).starting_point,
            pos.piece.width == 0 || pos.piece.height == 0 ==> final(self).area == old(self).area,
            pos.piece.width > 0 && pos.piece.height > 0 ==> {
                let last_x = pos.x + pos.piece.width - 1;
                let last_y = pos.y + pos.piece.height - 1;
                &&& final(self).area.0.0 == min(old(self).area.0.0 as int, pos.x as int)
                &&& final(self).area.0.1 == min(old(self).area.0.1 as int, pos.y as int)
                &&& final(self).area.1.0 == if last_x >= anfield.width {
                    anfield.width as int
                } else {
                    max(old(self).area.1.0 as int, last_x)
                }
                &&& final(self).area.1.1 == if last_y >= anfield.height {
                    anfield.height as int
                } else {
                    max(old(self).area.1.1 as int, last_y)
                }
            },
    {
        let ghost start = self.area;
        let mut i: i32 = 0;
        while i < pos.piece.height
            invariant
                pos.x + pos.piece.width <= i32::MAX,
                pos.y + pos.piece.height <= i32::MAX,
                0 <= i <= pos.piece.height,
                0 <= pos.piece.width,
                self.id == old(self).id,
                self.characters == old(self).characters,
                self.starting_point == old(self).starting_point,
                pos.piece.width == 0 || i == 0 ==> self.area == start,
                pos.piece.width > 0 && i > 0 ==> {
                    let last_x = pos.x + pos.piece.width - 1;
                    let last_y = pos.y + i - 1;
                    &&& self.area.0.0 == min(start.0.0 as int, pos.x as int)
                    &&& self.area.0.1 == min(start.0.1 as int, pos.y as int)
                    &&& self.area.1.0 == if last_x >= anfield.width {
                        anfield.width as int
                    } else {
                        max(start.1.0 as int, last_x)
                    }
                    &&& self.area.1.1 == if last_y >= anfield.height {
                        anfield.height as int
                    } else {
                        max(start.1.1 as int, last_y)
                    }
                },
            decreases pos.piece.height - i,
        {
            let ghost row_start = self.area;
            let mut j: i32 = 0;
            while j < pos.piece.width
                invariant
                    pos.x + pos.piece.width <= i32::MAX,
                    pos.y + pos.piece.height <= i32::MAX,
                    0 <= i < pos.piece.height,
                    0 <= j <= pos.piece.width,
                    self.id == old(self).id,
                    self.characters == old(self).characters,
                    self.starting_point == old(self).starting_point,
                    j == 0 ==> self.area == row_start,
                    j > 0 ==> {
                        let cx = pos.x + j - 1;
                        let cy = pos.y + i;
                        &&& self.area.0.0 == min(row_start.0.0 as int, pos.x as int)
                        &&& self.area.0.1 == min(row_start.0.1 as int, cy)
                        &&& self.area.1.0 == if cx >= anfield.width {
                            anfield.width as int
                        } else {
                            max(row_start.1.0 as int, cx)
                        }
                        &&& self.area.1.1 == if cy >= anfield.height {
                            anfield.height as int
                        } else {
                            max(row_start.1.1 as int, cy)
                        }
                    },
                decreases pos.piece.width - j,
            {
                let cx = pos.x + j;
                let cy = pos.y + i;
                if cx >= anfield.width {
                    self.area.1.0 = anfield.width;
                } else if cx > self.area.1.0 {
                    self.area.1.0 = cx;
                }
                if cx < self.area.0.0 {
                    self.area.0.0 = cx;
                }
                if cy >= anfield.height {
                    self.area.1.1 = anfield.height;
                } else if cy > self.area.1.1 {
                    self.area.1.1 = cy;
                }
                if cy < self.area.0.1 {
                    self.area.0.1 = cy;
                }
                j = j + 1;
            }
            i = i + 1;
        }
    }
}

} // verus!
