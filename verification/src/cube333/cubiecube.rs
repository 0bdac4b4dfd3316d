//! The three invariants that tell the states of a cube that can be solved from
//! those of a cube that was put together wrongly.

use super::corner::CornerTwist;
use super::edge::EdgeFlip;
use super::{corners_to_u8, digits, edges_to_u8, CubieCube, CubieState};
use crate::ranking::orientation::{digit_sum, lemma_digit_sum_update};
use crate::ranking::parity::{is_odd, lemma_inversions_sorted, lemma_swap_any, swap};
use crate::ranking::permutation::{is_permutation, lemma_permutation_surjective};
use vstd::prelude::*;

verus! {

/// The number of `false` entries.
pub open spec fn count_false(flags: Seq<bool>) -> nat
    decreases flags.len(),
{
    if flags.len() == 0 {
        0
    } else {
        count_false(flags.drop_last()) + if flags.last() {
            0nat
        } else {
            1nat
        }
    }
}

/// Setting an entry that is `false` lowers the count by one.
proof fn lemma_count_false_update(flags: Seq<bool>, i: int)
    requires
        0 <= i < flags.len(),
        !flags[i],
    ensures
        count_false(flags.update(i, true)) + 1 == count_false(flags),
    decreases flags.len(),
{
    let u = flags.update(i, true);
    if i == flags.len() - 1 {
        assert(u.drop_last() =~= flags.drop_last());
    } else {
        lemma_count_false_update(flags.drop_last(), i);
        assert(u.drop_last() =~= flags.drop_last().update(i, true));
    }
}

/// Between two cycles of the walk: `q` is `p` with every visited element made a
/// fixed point.
spec fn contracted(p: Seq<int>, visited: Seq<bool>, q: Seq<int>) -> bool {
    &&& q.len() == p.len()
    &&& visited.len() == p.len()
    &&& q.no_duplicates()
    &&& forall|x: int|
        0 <= x < p.len() ==> #[trigger] q[x] == if visited[x] {
            x
        } else {
            p[x]
        }
    &&& forall|x: int| 0 <= x < p.len() && visited[x] ==> visited[#[trigger] p[x]]
}

/// Within a cycle of the walk, which began at `start` and has come to `ptr`: `q` is
/// `p` with every visited element but `ptr` made a fixed point, and the cycle closed
/// at `ptr` in place of `start`.
spec fn contracting(p: Seq<int>, visited: Seq<bool>, q: Seq<int>, start: int, ptr: int) -> bool {
    &&& q.len() == p.len()
    &&& visited.len() == p.len()
    &&& q.no_duplicates()
    &&& 0 <= start < p.len()
    &&& 0 <= ptr < p.len()
    &&& visited[start]
    &&& visited[ptr]
    &&& forall|x: int|
        0 <= x < p.len() ==> #[trigger] q[x] == if visited[x] && x != ptr {
            x
        } else if p[x] == start {
            ptr
        } else {
            p[x]
        }
    &&& forall|x: int|
        0 <= x < p.len() && visited[x] && x != ptr ==> visited[#[trigger] p[x]] && p[x] != start
}

/// One step of the walk, from `ptr` to `p[ptr]`, which is not yet `start`: the next
/// element has not been visited, and exchanging two elements of `q` keeps it in
/// step with the walk.
proof fn lemma_walk_step(
    p: Seq<int>,
    visited: Seq<bool>,
    q: Seq<int>,
    start: int,
    ptr: int,
    prev: int,
) -> (next_q: Seq<int>)
    requires
        is_permutation(p),
        contracting(p, visited, q, start, ptr),
        p[ptr] != start,
        ptr != start ==> 0 <= prev < p.len() && prev != ptr && p[prev] == ptr,
    ensures
        !visited[p[ptr]],
        contracting(p, visited.update(p[ptr], true), next_q, start, p[ptr]),
        is_odd(next_q) != is_odd(q),
{
    let y = p[ptr];
    lemma_permutation_surjective(p, start);
    let x0 = choose|i: int| 0 <= i < p.len() && p[i] == start;
    assert(q[x0] == ptr);
    assert(q[ptr] == y);
    if y == ptr {
        // then `ptr` is a fixed point of `p`, and nothing else leads to it
        assert(ptr != start);
        assert(p[prev] == p[ptr]);
    }
    if visited[y] {
        assert(q[y] == y);
    }
    let next_q = swap(q, ptr, x0);
    lemma_swap_any(q, ptr, x0);
    let next_visited = visited.update(y, true);
    assert forall|x: int| 0 <= x < p.len() implies #[trigger] next_q[x] == if next_visited[x] && x
        != y {
        x
    } else if p[x] == start {
        y
    } else {
        p[x]
    } by {
        if x != x0 && p[x] == start {
            assert(p[x] == p[x0]);
        }
    }
    next_q
}

/// The parity of a permutation of 0, 1, .., `COUNT` - 1: whether it has an odd
/// number of inversions. It is found by walking the cycles of the permutation: a
/// cycle of length n counts as n - 1 exchanges.
pub fn permutation_parity<const COUNT: usize>(perm: &[u8; COUNT]) -> (r: bool)
    requires
        is_permutation(digits(perm@)),
    ensures
        r == is_odd(digits(perm@)),
{
    let ghost p = digits(perm@);
    let ghost mut q = p;
    let mut parity = false;
    let mut visited = [false;COUNT];
    let mut idx: usize = 0;
    while idx < COUNT
        invariant
            idx <= COUNT,
            p == digits(perm@),
            is_permutation(p),
            contracted(p, visited@, q),
            parity == (is_odd(q) != is_odd(p)),
            forall|k: int| 0 <= k < idx ==> visited[p[k]],
        decreases COUNT - idx,
    {
        let start = perm[idx];
        assert(0 <= p[idx as int] < COUNT);
        if !visited[start as usize] {
            let mut ptr = start;
            let ghost mut prev = 0int;
            visited[ptr as usize] = true;
            proof {
                assert forall|x: int| 0 <= x < p.len() && visited[x] && x != ptr implies visited[#[trigger] p[x]]
                    && p[x] != start by {
                    assert(visited[p[x]]);
                }
            }
            while perm[ptr as usize] != start
                invariant
                    p == digits(perm@),
                    is_permutation(p),
                    p.len() == COUNT,
                    contracting(p, visited@, q, start as int, ptr as int),
                    parity == (is_odd(q) != is_odd(p)),
                    ptr != start ==> 0 <= prev < COUNT && prev != ptr && p[prev] == ptr,
                    forall|k: int| 0 <= k < idx ==> visited[p[k]],
                decreases count_false(visited@),
            {
                proof {
                    q = lemma_walk_step(p, visited@, q, start as int, ptr as int, prev);
                    lemma_count_false_update(visited@, p[ptr as int]);
                    prev = ptr as int;
                    assert(0 <= p[ptr as int] < COUNT);
                }
                parity = !parity;
                ptr = perm[ptr as usize];
                visited[ptr as usize] = true;
            }
            proof {
                assert forall|x: int| 0 <= x < p.len() implies #[trigger] q[x] == if visited[x] {
                    x
                } else {
                    p[x]
                } by {
                    if x != ptr && p[x] == start {
                        assert(p[x] == p[ptr as int]);
                    }
                }
                assert forall|x: int| 0 <= x < p.len() && visited[x] implies visited[#[trigger] p[x]] by {}
            }
        }
        idx += 1;
    }
    proof {
        assert forall|i: int, j: int| 0 <= i < j < q.len() implies q[i] < q[j] by {
            lemma_permutation_surjective(p, i);
            lemma_permutation_surjective(p, j);
            let a = choose|a: int| 0 <= a < p.len() && p[a] == i;
            let b = choose|b: int| 0 <= b < p.len() && p[b] == j;
            assert(visited[p[a]] && visited[p[b]]);
        }
        lemma_inversions_sorted(q);
    }
    parity
}

impl CubieCube {
    /// Returns the sum of corner orientations over the cube, represented as a corner orientation.
    pub fn co_parity(&self) -> (r: CornerTwist)
        ensures
            r.index() == self@.co_parity(),
    {
        let mut acc = CornerTwist::Oriented;
        for i in 0..8
            invariant
                acc.index() == digit_sum(self@.co.take(i as int)) % 3,
        {
            proof {
                assert(self@.co.take(i + 1).drop_last() =~= self@.co.take(i as int));
            }
            acc = acc.twist_by(self.co[i]);
        }
        assert(self@.co.take(8) =~= self@.co);
        acc
    }

    /// Returns the sum of edge orientations over the cube, represented as an edge orientation.
    pub fn eo_parity(&self) -> (r: EdgeFlip)
        ensures
            r.index() == self@.eo_parity(),
    {
        let mut acc = EdgeFlip::Oriented;
        for i in 0..12
            invariant
                acc.index() == digit_sum(self@.eo.take(i as int)) % 2,
        {
            proof {
                assert(self@.eo.take(i + 1).drop_last() =~= self@.eo.take(i as int));
            }
            acc = acc.flip_by(self.eo[i]);
        }
        assert(self@.eo.take(12) =~= self@.eo);
        acc
    }

    /// Whether the corner permutation is odd.
    pub fn cp_parity(&self) -> (r: bool)
        requires
            self@.is_valid(),
        ensures
            r == is_odd(self@.cp),
    {
        permutation_parity(&corners_to_u8(&self.cp))
    }

    /// Whether the edge permutation is odd.
    pub fn ep_parity(&self) -> (r: bool)
        requires
            self@.is_valid(),
        ensures
            r == is_odd(self@.ep),
    {
        permutation_parity(&edges_to_u8(&self.ep))
    }

    /// Return the permutation parity of the cube as a bool
    pub fn perm_parity(&self) -> (r: bool)
        requires
            self@.is_valid(),
        ensures
            r == self@.perm_parity(),
    {
        self.ep_parity() ^ self.cp_parity()
    }

    /// Return true if the corresponding cube is illegal due to a corner twist, an edge flip or by
    /// permutation parity.
    pub fn illegal(&self) -> (r: bool)
        requires
            self@.is_valid(),
        ensures
            r == !self@.is_legal(),
    {
        self.co_parity() != CornerTwist::Oriented || self.eo_parity() != EdgeFlip::Oriented
            || self.perm_parity()
    }
}

impl CubieState {
    /// The state with the corner in `slot` twisted further by `twist`.
    pub open spec fn twist_corner(self, slot: int, twist: int) -> CubieState {
        CubieState { co: self.co.update(slot, (self.co[slot] + twist) % 3), ..self }
    }

    /// The state with the edge in `slot` flipped.
    pub open spec fn flip_edge(self, slot: int) -> CubieState {
        CubieState { eo: self.eo.update(slot, (self.eo[slot] + 1) % 2), ..self }
    }
}

/// A legal state with one corner twisted is illegal: the corner orientations add up
/// to the twist, while the other two invariants still hold.
pub proof fn lemma_single_twist(s: CubieState, slot: int, twist: int)
    requires
        s.is_legal(),
        0 <= slot < 8,
        1 <= twist <= 2,
    ensures
        s.twist_corner(slot, twist).is_valid(),
        !s.twist_corner(slot, twist).is_legal(),
        s.twist_corner(slot, twist).co_parity() == twist,
        s.twist_corner(slot, twist).eo_parity() == 0,
        !s.twist_corner(slot, twist).perm_parity(),
{
    lemma_digit_sum_update(s.co, slot, (s.co[slot] + twist) % 3);
}

/// A legal state with one edge flipped is illegal: the edge orientations add up to
/// one, while the other two invariants still hold.
pub proof fn lemma_single_flip(s: CubieState, slot: int)
    requires
        s.is_legal(),
        0 <= slot < 12,
    ensures
        s.flip_edge(slot).is_valid(),
        !s.flip_edge(slot).is_legal(),
        s.flip_edge(slot).eo_parity() == 1,
        s.flip_edge(slot).co_parity() == 0,
        !s.flip_edge(slot).perm_parity(),
{
    lemma_digit_sum_update(s.eo, slot, (s.eo[slot] + 1) % 2);
}

/// A legal state with two corners exchanged, or two edges, is illegal: the two
/// permutations differ in parity, while the orientations still add up to zero.
pub proof fn lemma_single_swap(s: CubieState, i: int, j: int)
    requires
        s.is_legal(),
    ensures
        0 <= i < 8 && 0 <= j < 8 && i != j ==> {
            let t = CubieState { cp: swap(s.cp, i, j), ..s };
            t.is_valid() && t.perm_parity() && t.co_parity() == 0 && t.eo_parity() == 0
        },
        0 <= i < 12 && 0 <= j < 12 && i != j ==> {
            let t = CubieState { ep: swap(s.ep, i, j), ..s };
            t.is_valid() && t.perm_parity() && t.co_parity() == 0 && t.eo_parity() == 0
        },
{
    if 0 <= i < 8 && 0 <= j < 8 && i != j {
        lemma_swap_any(s.cp, i, j);
    }
    if 0 <= i < 12 && 0 <= j < 12 && i != j {
        lemma_swap_any(s.ep, i, j);
    }
}

} // verus!
