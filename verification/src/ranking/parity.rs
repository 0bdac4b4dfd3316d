//! The parity of a permutation, by its number of inversions.

use super::permutation::{count_greater, lemma_count_greater_none, strictly_increasing};
use vstd::prelude::*;

verus! {

/// The number of inversions of `s`: the pairs of positions whose elements stand
/// in descending order.
pub open spec fn inversions(s: Seq<int>) -> nat
    decreases s.len(),
{
    if s.len() == 0 {
        0
    } else {
        inversions(s.drop_last()) + count_greater(s.drop_last(), s.last())
    }
}

/// Whether `s` has an odd number of inversions. For a permutation this is its
/// parity: whether it is a product of an odd number of transpositions.
pub open spec fn is_odd(s: Seq<int>) -> bool {
    inversions(s) % 2 == 1
}

/// `s` with the elements at `i` and `j` exchanged.
pub open spec fn swap(s: Seq<int>, i: int, j: int) -> Seq<int> {
    s.update(i, s[j]).update(j, s[i])
}

/// `s` with the elements at `a`, `b`, `c`, `d` moved round: the element at `b`
/// goes to `a`, that at `c` to `b`, that at `d` to `c`, and that at `a` to `d`.
pub open spec fn cycle4(s: Seq<int>, a: int, b: int, c: int, d: int) -> Seq<int> {
    s.update(a, s[b]).update(b, s[c]).update(c, s[d]).update(d, s[a])
}

/// Replacing an element changes the count by what the two elements add to it.
pub proof fn lemma_count_greater_update(s: Seq<int>, i: int, v: int, x: int)
    requires
        0 <= i < s.len(),
    ensures
        count_greater(s.update(i, v), x) + (if s[i] > x {
            1int
        } else {
            0int
        }) == count_greater(s, x) + (if v > x {
            1int
        } else {
            0int
        }),
    decreases s.len(),
{
    let u = s.update(i, v);
    if i == s.len() - 1 {
        assert(u.drop_last() =~= s.drop_last());
    } else {
        lemma_count_greater_update(s.drop_last(), i, v, x);
        assert(u.drop_last() =~= s.drop_last().update(i, v));
    }
}

/// Exchanging two elements does not change how many elements exceed `x`.
pub proof fn lemma_count_greater_swap(s: Seq<int>, i: int, j: int, x: int)
    requires
        0 <= i < s.len(),
        0 <= j < s.len(),
    ensures
        count_greater(swap(s, i, j), x) == count_greater(s, x),
{
    if i != j {
        lemma_count_greater_update(s, i, s[j], x);
        lemma_count_greater_update(s.update(i, s[j]), j, s[i], x);
    } else {
        assert(swap(s, i, j) =~= s);
    }
}

/// Exchanging two neighbours that differ changes the number of inversions by one.
pub proof fn lemma_adjacent_swap(s: Seq<int>, i: int)
    requires
        0 <= i,
        i + 1 < s.len(),
        s[i] != s[i + 1],
    ensures
        inversions(swap(s, i, i + 1)) == inversions(s) + (if s[i] < s[i + 1] {
            1int
        } else {
            -1int
        }),
    decreases s.len(),
{
    let u = swap(s, i, i + 1);
    if i + 1 == s.len() - 1 {
        let t = s.drop_last().drop_last();
        let a = s[i];
        let b = s[i + 1];
        assert(u.drop_last().drop_last() =~= t);
        assert(s.drop_last().last() == a);
        assert(u.drop_last().last() == b);
        assert(inversions(s) == inversions(s.drop_last()) + count_greater(s.drop_last(), b));
        assert(inversions(s.drop_last()) == inversions(t) + count_greater(t, a));
        assert(count_greater(s.drop_last(), b) == count_greater(t, b) + if a > b {
            1nat
        } else {
            0nat
        });
        assert(inversions(u) == inversions(u.drop_last()) + count_greater(u.drop_last(), a));
        assert(inversions(u.drop_last()) == inversions(t) + count_greater(t, b));
        assert(count_greater(u.drop_last(), a) == count_greater(t, a) + if b > a {
            1nat
        } else {
            0nat
        });
    } else {
        lemma_adjacent_swap(s.drop_last(), i);
        assert(u.drop_last() =~= swap(s.drop_last(), i, i + 1));
        lemma_count_greater_swap(s.drop_last(), i, i + 1, s.last());
    }
}

/// Exchanging any two elements of a sequence without repetitions turns an even
/// number of inversions into an odd one, and an odd into an even.
pub proof fn lemma_swap_flips_parity(s: Seq<int>, i: int, j: int)
    requires
        s.no_duplicates(),
        0 <= i < j < s.len(),
    ensures
        is_odd(swap(s, i, j)) != is_odd(s),
        swap(s, i, j).no_duplicates(),
    decreases j - i,
{
    lemma_swap_no_duplicates(s, i, j);
    if j == i + 1 {
        lemma_adjacent_swap(s, i);
    } else {
        let s1 = swap(s, i, i + 1);
        lemma_swap_no_duplicates(s, i, i + 1);
        lemma_adjacent_swap(s, i);
        let s2 = swap(s1, i + 1, j);
        lemma_swap_flips_parity(s1, i + 1, j);
        let s3 = swap(s2, i, i + 1);
        lemma_adjacent_swap(s2, i);
        assert(s3 =~= swap(s, i, j));
    }
}

/// Exchanging two elements of a sequence without repetitions leaves it without
/// repetitions.
pub proof fn lemma_swap_no_duplicates(s: Seq<int>, i: int, j: int)
    requires
        s.no_duplicates(),
        0 <= i < s.len(),
        0 <= j < s.len(),
    ensures
        swap(s, i, j).no_duplicates(),
        swap(s, i, j).len() == s.len(),
{
    let u = swap(s, i, j);
    assert forall|a: int, b: int| 0 <= a < u.len() && 0 <= b < u.len() && a != b implies u[a]
        != u[b] by {
        let a0 = if a == i {
            j
        } else if a == j {
            i
        } else {
            a
        };
        let b0 = if b == i {
            j
        } else if b == j {
            i
        } else {
            b
        };
        assert(u[a] == s[a0] && u[b] == s[b0] && a0 != b0);
    }
}

/// Moving four elements round a cycle is three exchanges, so it flips the parity.
pub proof fn lemma_cycle4_flips_parity(s: Seq<int>, a: int, b: int, c: int, d: int)
    requires
        s.no_duplicates(),
        0 <= a < s.len(),
        0 <= b < s.len(),
        0 <= c < s.len(),
        0 <= d < s.len(),
        a != b && a != c && a != d && b != c && b != d && c != d,
    ensures
        is_odd(cycle4(s, a, b, c, d)) != is_odd(s),
        cycle4(s, a, b, c, d).no_duplicates(),
{
    let s1 = swap(s, a, b);
    lemma_swap_any(s, a, b);
    let s2 = swap(s1, b, c);
    lemma_swap_any(s1, b, c);
    let s3 = swap(s2, c, d);
    lemma_swap_any(s2, c, d);
    assert(s3 =~= cycle4(s, a, b, c, d));
}

/// `lemma_swap_flips_parity`, for two positions in either order.
pub proof fn lemma_swap_any(s: Seq<int>, i: int, j: int)
    requires
        s.no_duplicates(),
        0 <= i < s.len(),
        0 <= j < s.len(),
        i != j,
    ensures
        is_odd(swap(s, i, j)) != is_odd(s),
        swap(s, i, j).no_duplicates(),
        swap(s, i, j).len() == s.len(),
{
    if i < j {
        lemma_swap_flips_parity(s, i, j);
    } else {
        lemma_swap_flips_parity(s, j, i);
        assert(swap(s, i, j) =~= swap(s, j, i));
    }
}

/// An increasing sequence has no inversions.
pub proof fn lemma_inversions_sorted(s: Seq<int>)
    requires
        strictly_increasing(s),
    ensures
        inversions(s) == 0,
    decreases s.len(),
{
    if s.len() > 0 {
        lemma_inversions_sorted(s.drop_last());
        lemma_count_greater_none(s.drop_last(), s.last());
    }
}

} // verus!
