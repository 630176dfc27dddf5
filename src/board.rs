use vstd::prelude::*;

use crate::anfield::{valid_owner, Anfield, EMPTY};
use crate::robot::{is_marker, Robot};
use crate::text::{strip, stripped, Strip};

verus! {

/// The owner that board character `c` stands for, as seen by `me`: `'.'`
/// is empty, `me`'s markers are `me`'s, any other mark is the other player's.
pub open spec fn char_owner(c: char, me: Robot) -> i32 {
    if c == '.' {
        EMPTY
    } else if is_marker(me.characters, c) {
        me.id
    } else if me.id == 1 {
        2
    } else {
        1
    }
}

/// The owner of `(x, y)` that board rows `rows` give: row `y` is stripped
/// of what cannot stand for a cell at either end, and its `x`-th character
/// read; a cell that no row reaches is empty.
pub open spec fn row_owner(rows: Seq<Seq<char>>, x: int, y: int, me: Robot) -> i32 {
    if 0 <= y < rows.len() {
        let r = stripped(rows[y], Strip::Cells);
        if 0 <= x < r.len() {
            char_owner(r[x], me)
        } else {
            EMPTY
        }
    } else {
        EMPTY
    }
}

/// The character written for owner `o`.
pub open spec fn owner_char(o: i32) -> char {
    if o == 1 {
        '@'
    } else if o == 2 {
        '$'
    } else {
        '.'
    }
}

/// The rows of characters that stand for board `g`.
pub open spec fn rendered(g: Anfield) -> Seq<Seq<char>> {
    Seq::new(g.height as nat, |y: int| Seq::new(g.width as nat, |x: int| owner_char(g.owner(x, y))))
}

/// The marker characters of player `id`.
pub open spec fn marker_seq(id: i32) -> Seq<char> {
    if id == 1 {
        seq!['a', '@']
    } else {
        seq!['s', '$']
    }
}

/// `me` is player 1 or player 2, with that player's markers.
pub open spec fn standard_player(me: Robot) -> bool {
    (me.id == 1 || me.id == 2) && me.characters@ == marker_seq(me.id)
}

/// The marker characters of player `id`: `a` and `@` for player 1, `s` and
/// `$` for player 2.
pub fn markers(id: i32) -> (r: [char; 2])
    ensures
        r@ == marker_seq(id),
{
    if id == 1 {
        let r = ['a', '@'];
        assert(r@ =~= seq!['a', '@']);
        r
    } else {
        let r = ['s', '$'];
        assert(r@ =~= seq!['s', '$']);
        r
    }
}

/// The owner that board character `c` stands for, as seen by `me`.
fn owner_from_char(c: char, me: &Robot) -> (r: i32)
    ensures
        r == char_owner(c, *me),
{
    if c == '.' {
        EMPTY
    } else if me.owns_char(c) {
        me.id
    } else if me.id == 1 {
        2
    } else {
        1
    }
}

impl Anfield {
    /// A `width` by `height` board read from its rows, as `row_owner` says,
    /// with no exposed cells.
    pub fn from_rows(width: i32, height: i32, rows: &Vec<Vec<char>>, me: &Robot) -> (r: Anfield)
        requires
            0 <= width,
            0 <= height,
            valid_owner(me.id),
        ensures
            r.wf(),
            r.width == width,
            r.height == height,
            r.opp_occupation@.len() == 0,
            forall|x: int, y: int|
                r.in_bounds(x, y) ==> #[trigger] r.owner(x, y) == row_owner(
                    rows.deep_view(),
                    x,
                    y,
                    *me,
                ),
    {
        let ghost rs = rows.deep_view();
        let mut occupation: Vec<Vec<i32>> = Vec::new();
        let mut y: i32 = 0;
        while y < height
            invariant
                0 <= y <= height,
                0 <= width,
                valid_owner(me.id),
                rs == rows.deep_view(),
                occupation@.len() == y,
                forall|r: int| 0 <= r < y ==> #[trigger] occupation@[r]@.len() == width,
                forall|r: int, x: int|
                    0 <= r < y && 0 <= x < width ==> #[trigger] occupation@[r]@[x] == row_owner(
                        rs,
                        x,
                        r,
                        *me,
                    ),
            decreases height - y,
        {
            let cells: Vec<char> = if (y as usize) < rows.len() {
                strip(&rows[y as usize], Strip::Cells)
            } else {
                Vec::new()
            };
            proof {
                if (y as int) < rs.len() {
                    assert(rs[y as int] == rows@[y as int]@);
                }
            }
            let mut row: Vec<i32> = Vec::new();
            let mut x: i32 = 0;
            while x < width
                invariant
                    0 <= x <= width,
                    0 <= y < height,
                    valid_owner(me.id),
                    rs == rows.deep_view(),
                    (y as int) < rs.len() ==> cells@ == stripped(rs[y as int], Strip::Cells),
                    (y as int) >= rs.len() ==> cells@.len() == 0,
                    row@.len() == x,
                    forall|c: int| 0 <= c < x ==> #[trigger] row@[c] == row_owner(rs, c, y as int, *me),
                decreases width - x,
            {
                let o = if (x as usize) < cells.len() {
                    owner_from_char(cells[x as usize], me)
                } else {
                    EMPTY
                };
                row.push(o);
                x = x + 1;
            }
            occupation.push(row);
            y = y + 1;
        }
        let r = Anfield { width, height, occupation, opp_occupation: Vec::new() };
        assert forall|y: int, x: int| 0 <= y < height && 0 <= x < width implies valid_owner(
            #[trigger] r.occupation@[y]@[x],
        ) by {
            assert(r.occupation@[y]@[x] == row_owner(rs, x, y, *me));
        }
        r
    }

    /// The board written as rows of characters: `'.'` for an empty cell,
    /// `'@'` for player 1 and `'$'` for player 2.
    pub fn to_rows(&self) -> (r: Vec<Vec<char>>)
        requires
            self.wf(),
        ensures
            r.deep_view() == rendered(*self),
    {
        let mut out: Vec<Vec<char>> = Vec::new();
        let mut y: i32 = 0;
        while y < self.height
            invariant
                self.wf(),
                0 <= y <= self.height,
                out@.len() == y,
                forall|r: int| 0 <= r < y ==> #[trigger] out@[r]@ == rendered(*self)[r],
            decreases self.height - y,
        {
            let mut row: Vec<char> = Vec::new();
            let mut x: i32 = 0;
            while x < self.width
                invariant
                    self.wf(),
                    0 <= y < self.height,
                    0 <= x <= self.width,
                    row@.len() == x,
                    forall|c: int| 0 <= c < x ==> #[trigger] row@[c] == owner_char(self.owner(c, y as int)),
                decreases self.width - x,
            {
                let o = self.occupation[y as usize][x as usize];
                let c = if o == 1 {
                    '@'
                } else if o == 2 {
                    '$'
                } else {
                    '.'
                };
                row.push(c);
                x = x + 1;
            }
            assert(row@ =~= rendered(*self)[y as int]);
            out.push(row);
            y = y + 1;
        }
        assert(out.deep_view() =~= rendered(*self)) by {
            assert forall|r: int| 0 <= r < out@.len() implies out.deep_view()[r] == rendered(*self)[r] by {
                assert(out.deep_view()[r] =~= out@[r]@);
            }
        }
        out
    }
}

} // verus!
