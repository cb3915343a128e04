//! Properties of the grid and the generation transition, stated and
//! proved once for all boards.

use vstd::prelude::*;
use crate::board::Board;
use crate::board::flip_seq_post;
use crate::board::flip_step;
use crate::board::lex_lt;
use crate::board::seq_has;
use crate::board::strictly_ordered;

verus! {

/// On a board with every cell dead, every coordinate — in bounds or not —
/// has zero live neighbors.
pub proof fn lemma_all_dead_no_live_neighbors(b: Board, x: int, y: int)
    requires
        forall|a: int, c: int| !(#[trigger] b.alive_at(a, c)),
    ensures
        b.live_neighbors(x, y) == 0,
{
}

/// Flipping the same cell twice restores the board: the alive state of
/// every coordinate is back to what it was before the first flip.
pub proof fn lemma_flip_involution(b0: Board, b1: Board, b2: Board, x: int, y: int)
    requires
        flip_step(b0, b1, x, y),
        flip_step(b1, b2, x, y),
    ensures
        forall|a: int, c: int| #[trigger] b2.alive_at(a, c) == b0.alive_at(a, c),
{
    assert forall|a: int, c: int| #[trigger] b2.alive_at(a, c) == b0.alive_at(a, c) by {
        if a == x && c == y {
            assert(b2.alive_at(a, c) == !b1.alive_at(a, c));
        }
    }
}

/// The live-neighbor count is always between 0 and 8, and boundary cells
/// see fewer in-grid neighbors: at most 5 on an edge and at most 3 in a
/// corner.
pub proof fn lemma_neighbor_count_bounds(b: Board, x: int, y: int)
    ensures
        0 <= b.live_neighbors(x, y) <= 8,
        x == 1 || x == b.width || y == 1 || y == b.height ==> b.live_neighbors(x, y) <= 5,
        (x == 1 || x == b.width) && (y == 1 || y == b.height) ==> b.live_neighbors(x, y) <= 3,
{
}

/// Two strictly `lex_lt`-ordered sequences with the same members are the
/// same sequence.
proof fn lemma_ordered_same_members(s1: Seq<(usize, usize)>, s2: Seq<(usize, usize)>)
    requires
        strictly_ordered(s1),
        strictly_ordered(s2),
        forall|x: int, y: int|
            #![trigger seq_has(s1, x, y)]
            #![trigger seq_has(s2, x, y)]
            seq_has(s1, x, y) == seq_has(s2, x, y),
    ensures
        s1 == s2,
    decreases s1.len(),
{
    if s1.len() == 0 {
        if s2.len() > 0 {
            assert(seq_has(s2, s2[0].0 as int, s2[0].1 as int));
            assert(false);
        }
        assert(s1 =~= s2);
    } else if s2.len() == 0 {
        assert(seq_has(s1, s1[0].0 as int, s1[0].1 as int));
        assert(false);
    } else {
        let a = s1[0];
        let b = s2[0];
        assert(seq_has(s1, a.0 as int, a.1 as int));
        let j = choose|j: int|
            0 <= j < s2.len() && (#[trigger] s2[j]).0 == a.0 && s2[j].1 == a.1;
        assert(seq_has(s2, b.0 as int, b.1 as int));
        let i = choose|i: int|
            0 <= i < s1.len() && (#[trigger] s1[i]).0 == b.0 && s1[i].1 == b.1;
        if i > 0 && j > 0 {
            assert(lex_lt(s1[0], s1[i]));
            assert(lex_lt(s2[0], s2[j]));
            assert(false);
        }
        assert(a.0 == b.0 && a.1 == b.1);
        let t1 = s1.subrange(1, s1.len() as int);
        let t2 = s2.subrange(1, s2.len() as int);
        assert forall|x: int, y: int|
            #![trigger seq_has(t1, x, y)]
            #![trigger seq_has(t2, x, y)]
            seq_has(t1, x, y) == seq_has(t2, x, y) by {
            lemma_tail_members(s1, x, y);
            lemma_tail_members(s2, x, y);
            assert(seq_has(t1, x, y) == (seq_has(s1, x, y) && !(x == a.0 && y == a.1)));
            assert(seq_has(t2, x, y) == (seq_has(s2, x, y) && !(x == b.0 && y == b.1)));
        }
        assert(strictly_ordered(t1)) by {
            assert forall|m: int, n: int| 0 <= m < n < t1.len() implies lex_lt(t1[m], t1[n]) by {
                assert(t1[m] == s1[m + 1] && t1[n] == s1[n + 1]);
            }
        }
        assert(strictly_ordered(t2)) by {
            assert forall|m: int, n: int| 0 <= m < n < t2.len() implies lex_lt(t2[m], t2[n]) by {
                assert(t2[m] == s2[m + 1] && t2[n] == s2[n + 1]);
            }
        }
        lemma_ordered_same_members(t1, t2);
        assert forall|k: int| 0 <= k < s1.len() implies s1[k] == s2[k] by {
            if k == 0 {
                assert(s1[0].0 == s2[0].0 && s1[0].1 == s2[0].1);
            } else {
                assert(s1[k] == t1[k - 1] && s2[k] == t2[k - 1]);
            }
        }
        assert(s1 =~= s2);
    }
}

/// In a strictly ordered sequence, the members of the tail are exactly
/// the members of the whole sequence other than the head.
proof fn lemma_tail_members(s: Seq<(usize, usize)>, x: int, y: int)
    requires
        strictly_ordered(s),
        s.len() > 0,
    ensures
        seq_has(s.subrange(1, s.len() as int), x, y) == (seq_has(s, x, y) && !(x == s[0].0 && y
            == s[0].1)),
{
    let t = s.subrange(1, s.len() as int);
    if seq_has(t, x, y) {
        let m = choose|m: int| 0 <= m < t.len() && (#[trigger] t[m]).0 == x && t[m].1 == y;
        assert(t[m] == s[m + 1]);
        assert((#[trigger] s[m + 1]).0 == x && s[m + 1].1 == y);
        assert(lex_lt(s[0], s[m + 1]));
    }
    if seq_has(s, x, y) && !(x == s[0].0 && y == s[0].1) {
        let m = choose|m: int| 0 <= m < s.len() && (#[trigger] s[m]).0 == x && s[m].1 == y;
        assert(m > 0);
        assert((#[trigger] t[m - 1]).0 == x && t[m - 1].1 == y);
    }
}

/// The flip set is a pure function of the board snapshot: any two
/// sequences that satisfy the contract of `Board::get_cells_to_flip`
/// for the same board are equal, so two calls on the same unmodified
/// board return the same set of coordinates.
pub proof fn lemma_flip_set_unique(b: Board, s1: Seq<(usize, usize)>, s2: Seq<(usize, usize)>)
    requires
        flip_seq_post(b, s1),
        flip_seq_post(b, s2),
    ensures
        s1 == s2,
{
    assert forall|x: int, y: int|
        #![trigger seq_has(s1, x, y)]
        #![trigger seq_has(s2, x, y)]
        seq_has(s1, x, y) == seq_has(s2, x, y) by {
        if seq_has(s1, x, y) {
            let k = choose|k: int| 0 <= k < s1.len() && (#[trigger] s1[k]).0 == x && s1[k].1 == y;
            assert(b.should_flip((#[trigger] s1[k]).0 as int, s1[k].1 as int));
            assert(b.should_flip(x, y));
        }
        if seq_has(s2, x, y) {
            let k = choose|k: int| 0 <= k < s2.len() && (#[trigger] s2[k]).0 == x && s2[k].1 == y;
            assert(b.should_flip((#[trigger] s2[k]).0 as int, s2[k].1 as int));
            assert(b.should_flip(x, y));
        }
    }
    lemma_ordered_same_members(s1, s2);
}

} // verus!
