//! Properties of the engine that relate several of its functions or hold
//! of all their inputs, stated and proved over the specifications.
use vstd::prelude::*;

use crate::anfield::{Anfield, Cell};
use crate::board::{owner_char, rendered, row_owner, standard_player};
use crate::piece::PieceView;
use crate::robot::Robot;
use crate::scoring::{
    lemma_reach_bounds, merge, partial, reach, surround_of, Position, BLOCKING_WEIGHT, SURROUND_WEIGHT,
};
use crate::text::{end_kept, first_kept, kept, stripped, Strip};
use vstd::seq_lib::{to_multiset_build, to_multiset_contains, to_multiset_len, to_multiset_remove};

verus! {

/// A placement is illegal as soon as one filled cell of the piece falls
/// off the board.
pub proof fn lemma_off_board_is_illegal(
    g: Anfield,
    ax: int,
    ay: int,
    me: int,
    p: PieceView,
    i: int,
    j: int,
)
    requires
        0 <= i < p.height,
        0 <= j < p.width,
        p.filled(i, j),
        !g.in_bounds(ax + j, ay + i),
    ensures
        !g.legal(ax, ay, me, p),
{
    assert(!g.cell_fits(ax, ay, me, p, i, j));
}

/// A placement that lands on no other player's cell and stays on the
/// board is legal exactly when one of its cells lands on the player's own
/// territory: none, or two and more, make it illegal.
pub proof fn lemma_legal_iff_one_touch(g: Anfield, ax: int, ay: int, me: int, p: PieceView)
    ensures
        g.legal(ax, ay, me, p) ==> g.touch_count(ax, ay, me, p) == 1,
        g.fits(ax, ay, me, p) ==> (g.legal(ax, ay, me, p) <==> g.touch_count(ax, ay, me, p) == 1),
        g.touch_count(ax, ay, me, p) == 0 ==> !g.legal(ax, ay, me, p),
        g.touch_count(ax, ay, me, p) >= 2 ==> !g.legal(ax, ay, me, p),
{
}

proof fn lemma_anchors_row_legal(g: Anfield, me: int, p: PieceView, y: int, x: int)
    ensures
        forall|k: int|
            0 <= k < g.anchors_row(me, p, y, x).len() ==> g.legal(
                #[trigger] g.anchors_row(me, p, y, x)[k].0,
                g.anchors_row(me, p, y, x)[k].1,
                me,
                p,
            ),
    decreases x,
{
    if x > 0 {
        lemma_anchors_row_legal(g, me, p, y, x - 1);
        let prev = g.anchors_row(me, p, y, x - 1);
        let cur = g.anchors_row(me, p, y, x);
        assert forall|k: int| 0 <= k < cur.len() implies g.legal(#[trigger] cur[k].0, cur[k].1, me, p) by {
            if k < prev.len() {
                assert(cur[k] == prev[k]);
                assert(g.legal(prev[k].0, prev[k].1, me, p));
            }
        }
    }
}

proof fn lemma_anchors_rows_legal(g: Anfield, me: int, p: PieceView, y: int)
    ensures
        forall|k: int|
            0 <= k < g.anchors_rows(me, p, y).len() ==> g.legal(
                #[trigger] g.anchors_rows(me, p, y)[k].0,
                g.anchors_rows(me, p, y)[k].1,
                me,
                p,
            ),
    decreases y,
{
    if y > 0 {
        lemma_anchors_rows_legal(g, me, p, y - 1);
        lemma_anchors_row_legal(g, me, p, y - 1, g.width as int);
        let a = g.anchors_rows(me, p, y - 1);
        let b = g.anchors_row(me, p, y - 1, g.width as int);
        assert forall|k: int| 0 <= k < (a + b).len() implies g.legal(
            #[trigger] (a + b)[k].0,
            (a + b)[k].1,
            me,
            p,
        ) by {
            if k < a.len() {
                assert((a + b)[k] == a[k]);
            } else {
                assert((a + b)[k] == b[k - a.len()]);
            }
        }
    }
}

/// Every candidate that `potential_positions` hands out is a legal
/// placement of the piece by the player it was asked for.
pub proof fn lemma_candidates_are_legal(g: Anfield, me: int, p: PieceView, s: Seq<(Position, i128)>)
    requires
        g.candidates_for(me, p, s, g.anchors(me, p)),
    ensures
        forall|k: int|
            0 <= k < s.len() ==> #[trigger] g.legal(s[k].0.x as int, s[k].0.y as int, me, s[k].0.piece@),
        forall|k: int| 0 <= k < s.len() ==> (#[trigger] s[k]).0.robot_idx == me,
{
    lemma_anchors_rows_legal(g, me, p, g.height as int);
    let a = g.anchors_rows(me, p, g.height as int);
    assert forall|k: int| 0 <= k < s.len() implies #[trigger] g.legal(
        s[k].0.x as int,
        s[k].0.y as int,
        me,
        s[k].0.piece@,
    ) by {
        assert(g.is_candidate(me, p, s[k], a[k]));
        assert(g.legal(a[k].0, a[k].1, me, p));
    }
    assert forall|k: int| 0 <= k < s.len() implies (#[trigger] s[k]).0.robot_idx == me by {
        assert(g.is_candidate(me, p, s[k], a[k]));
    }
}

/// Reducing a frontier that is split in two parts, each part on its own,
/// and combining the two results gives the result for the whole frontier:
/// a parallel reduction comes to the same value however it splits the work.
pub proof fn lemma_reach_split(g: Anfield, a: Seq<Cell>, b: Seq<Cell>, ax: int, ay: int, me: int)
    requires
        i32::MIN <= ax <= i32::MAX,
        i32::MIN <= ay <= i32::MAX,
    ensures
        reach(g, a + b, ax, ay, me) == merge(reach(g, a, ax, ay, me), reach(g, b, ax, ay, me)),
    decreases b.len(),
{
    lemma_reach_bounds(g, a, ax, ay, me);
    if b.len() == 0 {
        assert(a + b =~= a);
    } else {
        lemma_reach_split(g, a, b.drop_last(), ax, ay, me);
        assert((a + b).drop_last() =~= a + b.drop_last());
        assert((a + b).last() == b.last());
    }
}

/// The combined frontier result does not depend on the order of the
/// frontier's cells: two frontiers holding the same cells, each as often,
/// give the same result, whatever order a scan of the board or a parallel
/// reduction visits them in.
pub proof fn lemma_reach_order_free(g: Anfield, s1: Seq<Cell>, s2: Seq<Cell>, ax: int, ay: int, me: int)
    requires
        i32::MIN <= ax <= i32::MAX,
        i32::MIN <= ay <= i32::MAX,
        s1.to_multiset() == s2.to_multiset(),
    ensures
        reach(g, s1, ax, ay, me) == reach(g, s2, ax, ay, me),
    decreases s1.len(),
{
    broadcast use vstd::multiset::group_multiset_axioms;

    to_multiset_len(s1);
    to_multiset_len(s2);
    if s1.len() == 0 {
        assert(s2 =~= s1);
    } else {
        let x = s1.last();
        let rest = s1.drop_last();
        assert(rest.push(x) =~= s1);
        to_multiset_build(rest, x);
        to_multiset_contains(s2, x);
        assert(s1.to_multiset().count(x) > 0);
        let i = choose|i: int| 0 <= i < s2.len() && s2[i] == x;
        let s3 = s2.remove(i);
        to_multiset_remove(s2, i);
        assert(s3.to_multiset() =~= rest.to_multiset());
        lemma_reach_order_free(g, rest, s3, ax, ay, me);
        let front = s2.subrange(0, i);
        let back = s2.subrange(i + 1, s2.len() as int);
        assert(s2 =~= front + (seq![x] + back));
        assert(s3 =~= front + back);
        lemma_reach_split(g, front, seq![x] + back, ax, ay, me);
        lemma_reach_split(g, seq![x], back, ax, ay, me);
        lemma_reach_split(g, front, back, ax, ay, me);
        lemma_reach_bounds(g, front, ax, ay, me);
        lemma_reach_bounds(g, back, ax, ay, me);
        assert(seq![x].drop_last() =~= Seq::<Cell>::empty());
        assert(seq![x].last() == x);
        let p = partial(g, x, ax, ay, me);
        assert(reach(g, seq![x], ax, ay, me) == merge(reach(g, Seq::<Cell>::empty(), ax, ay, me), p));
        assert(reach(g, s1, ax, ay, me) == merge(reach(g, rest, ax, ay, me), p));
    }
}

/// The score of a placement is fixed by the board, its frontier and the
/// placement: however the frontier is split between workers, the score is
/// the one obtained by combining their results.
pub proof fn lemma_score_deterministic(
    g: Anfield,
    pos: Position,
    me: int,
    a: Seq<Cell>,
    b: Seq<Cell>,
)
    requires
        g.opp_occupation@ == a + b,
    ensures
        ({
            let f = merge(
                reach(g, a, pos.x as int, pos.y as int, me),
                reach(g, b, pos.x as int, pos.y as int, me),
            );
            pos.score_of(g, me) == BLOCKING_WEIGHT * pos.blocking_term(g) + pos.edge_term(g)
                + SURROUND_WEIGHT * surround_of(f.0, f.1)
        }),
{
    lemma_reach_split(g, a, b, pos.x as int, pos.y as int, me);
}

proof fn lemma_strip_all_kept(l: Seq<char>, k: Strip)
    requires
        forall|i: int| 0 <= i < l.len() ==> kept(k, #[trigger] l[i]),
    ensures
        stripped(l, k) == l,
{
    if l.len() > 0 {
        assert(first_kept(l, k, 0) == 0);
        assert(end_kept(l, k, l.len() as int) == l.len());
        assert(l.subrange(0, l.len() as int) =~= l);
    } else {
        assert(stripped(l, k) =~= l);
    }
}

/// Writing a board out as rows and reading the rows back, as the player
/// whose markers they use, gives back every cell's owner.
pub proof fn lemma_board_round_trip(g: Anfield, me: Robot)
    requires
        g.wf(),
        standard_player(me),
    ensures
        forall|x: int, y: int| g.in_bounds(x, y) ==> #[trigger] row_owner(rendered(g), x, y, me) == g.owner(x, y),
{
    assert forall|x: int, y: int| g.in_bounds(x, y) implies #[trigger] row_owner(
        rendered(g),
        x,
        y,
        me,
    ) == g.owner(x, y) by {
        let row = rendered(g)[y];
        lemma_strip_all_kept(row, Strip::Cells);
        assert(me.characters@[0] == me.characters[0]);
        assert(me.characters@[1] == me.characters[1]);
    }
}

/// Reading rows of `'.'`, `'@'` and `'$'` and writing the board back gives
/// the same rows.
pub proof fn lemma_rows_round_trip(rows: Seq<Seq<char>>, width: int, height: int, me: Robot)
    requires
        standard_player(me),
        rows.len() == height,
        forall|y: int| 0 <= y < height ==> #[trigger] rows[y].len() == width,
        forall|y: int, x: int|
            0 <= y < height && 0 <= x < width ==> (#[trigger] rows[y][x] == '.' || rows[y][x] == '@'
                || rows[y][x] == '$'),
    ensures
        forall|y: int, x: int|
            0 <= y < height && 0 <= x < width ==> owner_char(row_owner(rows, x, y, me))
                == #[trigger] rows[y][x],
{
    assert forall|y: int, x: int| 0 <= y < height && 0 <= x < width implies owner_char(
        row_owner(rows, x, y, me),
    ) == #[trigger] rows[y][x] by {
        assert forall|i: int| 0 <= i < rows[y].len() implies kept(Strip::Cells, #[trigger] rows[y][i]) by {
            assert(rows[y][i] == '.' || rows[y][i] == '@' || rows[y][i] == '$');
        }
        lemma_strip_all_kept(rows[y], Strip::Cells);
        assert(me.characters@[0] == me.characters[0]);
        assert(me.characters@[1] == me.characters[1]);
    }
}

} // verus!
