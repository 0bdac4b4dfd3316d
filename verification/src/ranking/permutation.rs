//! Ranking of permutations in the factorial number system.
//!
//! The rank of a sequence is read off its Lehmer code: the digit of position `i`
//! counts the earlier elements that are greater than the element at `i`, and has
//! place value `i!`.

use vstd::arithmetic::div_mod::{lemma_fundamental_div_mod_converse, lemma_mod_breakdown};
use vstd::prelude::*;

verus! {

/// `n!`
pub open spec fn factorial(n: nat) -> nat
    decreases n,
{
    if n == 0 {
        1
    } else {
        n * factorial((n - 1) as nat)
    }
}

/// The number of elements of `s` that are greater than `x`.
pub open spec fn count_greater(s: Seq<int>, x: int) -> nat
    decreases s.len(),
{
    if s.len() == 0 {
        0
    } else {
        count_greater(s.drop_last(), x) + if s.last() > x {
            1nat
        } else {
            0nat
        }
    }
}

/// The rank of `p` among the arrangements of its elements: the sum over the
/// positions `i` of `i!` times the number of earlier elements greater than `p[i]`.
pub open spec fn permutation_rank(p: Seq<int>) -> nat
    decreases p.len(),
{
    if p.len() == 0 {
        0
    } else {
        count_greater(p.drop_last(), p.last()) * factorial((p.len() - 1) as nat)
            + permutation_rank(p.drop_last())
    }
}

/// The digit of `r` with place value `i!` in the factorial number system.
pub open spec fn lehmer_digit(r: nat, i: nat) -> nat {
    (r / factorial(i)) % (i + 1)
}

/// The arrangement of `pool` with rank `r`, for an increasing `pool`: the last
/// element is the one with as many greater elements in the pool as the leading
/// digit of `r` says, and the rest is the arrangement of what remains.
pub open spec fn permutation_unrank(pool: Seq<int>, r: nat) -> Seq<int>
    decreases pool.len(),
{
    if pool.len() == 0 {
        Seq::empty()
    } else {
        let i = (pool.len() - 1) as nat;
        let j = i - lehmer_digit(r, i);
        permutation_unrank(pool.remove(j), r).push(pool[j])
    }
}

/// The sequence 0, 1, .., n - 1.
pub open spec fn identity(n: nat) -> Seq<int> {
    Seq::new(n, |i: int| i)
}

/// Whether each element of `s` is less than the next.
pub open spec fn strictly_increasing(s: Seq<int>) -> bool {
    forall|i: int, j: int| 0 <= i < j < s.len() ==> s[i] < s[j]
}

/// Whether `p` holds each of 0, 1, .., n - 1 once, where n is its length.
pub open spec fn is_permutation(p: Seq<int>) -> bool {
    &&& p.no_duplicates()
    &&& forall|i: int| 0 <= i < p.len() ==> 0 <= #[trigger] p[i] < p.len()
}

/// Whether `p` lists elements of `pool`, as many as `pool` has, none twice.
pub open spec fn is_arrangement_of(p: Seq<int>, pool: Seq<int>) -> bool {
    &&& p.len() == pool.len()
    &&& p.no_duplicates()
    &&& forall|i: int| 0 <= i < p.len() ==> pool.contains(#[trigger] p[i])
}

/// A factorial is positive.
pub proof fn lemma_factorial_positive(n: nat)
    ensures
        factorial(n) > 0,
    decreases n,
{
    if n > 0 {
        lemma_factorial_positive((n - 1) as nat);
        assert(n * factorial((n - 1) as nat) > 0) by (nonlinear_arith)
            requires
                n > 0,
                factorial((n - 1) as nat) > 0,
        ;
    }
}

/// The values of the factorial that the cube needs.
pub proof fn lemma_factorial_values()
    ensures
        factorial(0) == 1,
        factorial(1) == 1,
        factorial(2) == 2,
        factorial(3) == 6,
        factorial(4) == 24,
        factorial(5) == 120,
        factorial(6) == 720,
        factorial(7) == 5040,
        factorial(8) == 40320,
        factorial(9) == 362880,
        factorial(10) == 3628800,
        factorial(11) == 39916800,
        factorial(12) == 479001600,
{
    reveal_with_fuel(factorial, 14);
}

/// The factorial grows with its argument.
pub proof fn lemma_factorial_monotonic(m: nat, n: nat)
    requires
        m <= n,
    ensures
        factorial(m) <= factorial(n),
    decreases n,
{
    if m < n {
        lemma_factorial_monotonic(m, (n - 1) as nat);
        lemma_factorial_positive((n - 1) as nat);
        assert(n * factorial((n - 1) as nat) >= factorial((n - 1) as nat)) by (nonlinear_arith)
            requires
                n >= 1,
        ;
    }
}

/// No more elements exceed `x` than there are elements.
pub proof fn lemma_count_greater_bound(s: Seq<int>, x: int)
    ensures
        count_greater(s, x) <= s.len(),
    decreases s.len(),
{
    if s.len() > 0 {
        lemma_count_greater_bound(s.drop_last(), x);
    }
}

/// Taking an element out of a sequence lowers the count by one if the element was
/// counted, and leaves it otherwise.
pub proof fn lemma_count_greater_remove(s: Seq<int>, j: int, x: int)
    requires
        0 <= j < s.len(),
    ensures
        count_greater(s, x) == count_greater(s.remove(j), x) + if s[j] > x {
            1nat
        } else {
            0nat
        },
    decreases s.len(),
{
    if j == s.len() - 1 {
        assert(s.remove(j) =~= s.drop_last());
    } else {
        lemma_count_greater_remove(s.drop_last(), j, x);
        assert(s.remove(j).drop_last() =~= s.drop_last().remove(j));
        assert(s.remove(j).last() == s.last());
    }
}

/// In an increasing sequence, the elements greater than the one at `j` are those
/// that come after it.
pub proof fn lemma_count_greater_sorted(s: Seq<int>, j: int)
    requires
        strictly_increasing(s),
        0 <= j < s.len(),
    ensures
        count_greater(s, s[j]) == s.len() - 1 - j,
    decreases s.len(),
{
    let t = s.drop_last();
    if j == s.len() - 1 {
        lemma_count_greater_none(t, s[j]);
    } else {
        lemma_count_greater_sorted(t, j);
    }
}

/// Where no element exceeds `x`, the count is zero.
pub proof fn lemma_count_greater_none(s: Seq<int>, x: int)
    requires
        forall|i: int| 0 <= i < s.len() ==> s[i] <= x,
    ensures
        count_greater(s, x) == 0,
    decreases s.len(),
{
    if s.len() > 0 {
        lemma_count_greater_none(s.drop_last(), x);
    }
}

/// What remains of an arrangement without its last element arranges what remains
/// of the pool without that element.
pub proof fn lemma_arrangement_step(p: Seq<int>, pool: Seq<int>, j: int)
    requires
        is_arrangement_of(p, pool),
        0 <= j < pool.len(),
        pool[j] == p.last(),
    ensures
        is_arrangement_of(p.drop_last(), pool.remove(j)),
{
    let q = p.drop_last();
    let rest = pool.remove(j);
    assert forall|i: int| 0 <= i < q.len() implies rest.contains(#[trigger] q[i]) by {
        assert(q[i] == p[i]);
        assert(pool.contains(p[i]));
        let m = choose|m: int| 0 <= m < pool.len() && pool[m] == p[i];
        assert(p[i] != p[p.len() - 1]);
        if m < j {
            assert(rest[m] == pool[m]);
        } else {
            assert(rest[m - 1] == pool[m]);
        }
    }
}

/// How many elements exceed `x` does not depend on the order of the elements.
pub proof fn lemma_count_greater_arrangement(p: Seq<int>, pool: Seq<int>, x: int)
    requires
        is_arrangement_of(p, pool),
    ensures
        count_greater(p, x) == count_greater(pool, x),
    decreases p.len(),
{
    if p.len() > 0 {
        assert(pool.contains(p[p.len() - 1]));
        let j = choose|j: int| 0 <= j < pool.len() && pool[j] == p.last();
        lemma_arrangement_step(p, pool, j);
        lemma_count_greater_arrangement(p.drop_last(), pool.remove(j), x);
        lemma_count_greater_remove(pool, j, x);
    }
}

/// A rank is below the factorial of the length, whatever the elements are.
pub proof fn lemma_rank_bound(p: Seq<int>)
    ensures
        permutation_rank(p) < factorial(p.len()),
    decreases p.len(),
{
    if p.len() > 0 {
        let k = (p.len() - 1) as nat;
        let c = count_greater(p.drop_last(), p.last());
        lemma_rank_bound(p.drop_last());
        lemma_count_greater_bound(p.drop_last(), p.last());
        assert(c * factorial(k) + factorial(k) <= (k + 1) * factorial(k)) by (nonlinear_arith)
            requires
                c <= k,
        ;
    }
}

/// An increasing sequence has rank 0.
pub proof fn lemma_rank_sorted(s: Seq<int>)
    requires
        strictly_increasing(s),
    ensures
        permutation_rank(s) == 0,
    decreases s.len(),
{
    if s.len() > 0 {
        lemma_rank_sorted(s.drop_last());
        lemma_count_greater_none(s.drop_last(), s.last());
    }
}

/// Unranking keeps the length of the pool.
pub proof fn lemma_unrank_len(pool: Seq<int>, r: nat)
    ensures
        permutation_unrank(pool, r).len() == pool.len(),
    decreases pool.len(),
{
    if pool.len() > 0 {
        let i = (pool.len() - 1) as nat;
        let j = i - lehmer_digit(r, i);
        lemma_digit_bound(r, i);
        lemma_unrank_len(pool.remove(j), r);
    }
}

/// The digit with place value `i!` is at most `i`.
pub proof fn lemma_digit_bound(r: nat, i: nat)
    ensures
        lehmer_digit(r, i) <= i,
{
    lemma_factorial_positive(i);
}

/// Unranking arranges the pool: it keeps the elements and repeats none.
pub proof fn lemma_unrank_arrangement(pool: Seq<int>, r: nat)
    requires
        pool.no_duplicates(),
    ensures
        is_arrangement_of(permutation_unrank(pool, r), pool),
    decreases pool.len(),
{
    if pool.len() > 0 {
        let i = (pool.len() - 1) as nat;
        lemma_digit_bound(r, i);
        let j = i - lehmer_digit(r, i);
        let rest = pool.remove(j);
        let q = permutation_unrank(rest, r);
        let p = q.push(pool[j]);
        lemma_unrank_arrangement(rest, r);
        assert forall|a: int| 0 <= a < p.len() implies pool.contains(#[trigger] p[a]) by {
            if a < q.len() {
                assert(rest.contains(q[a]));
                let m = choose|m: int| 0 <= m < rest.len() && rest[m] == q[a];
                if m < j {
                    assert(pool[m] == q[a]);
                } else {
                    assert(pool[m + 1] == q[a]);
                }
            } else {
                assert(pool[j] == p[a]);
            }
        }
        assert forall|a: int, b: int| 0 <= a < p.len() && 0 <= b < p.len() && a != b implies p[a]
            != p[b] by {
            if a < q.len() && b < q.len() {
            } else {
                let c = if a < q.len() {
                    a
                } else {
                    b
                };
                assert(rest.contains(q[c]));
                let m = choose|m: int| 0 <= m < rest.len() && rest[m] == q[c];
                if m < j {
                    assert(pool[m] == q[c]);
                } else {
                    assert(pool[m + 1] == q[c]);
                }
            }
        }
    }
}

/// Unranking and then ranking gives back the rank, reduced modulo the number of
/// arrangements.
pub proof fn lemma_rank_of_unrank(pool: Seq<int>, r: nat)
    requires
        strictly_increasing(pool),
    ensures
        permutation_rank(permutation_unrank(pool, r)) == r % factorial(pool.len()),
    decreases pool.len(),
{
    if pool.len() > 0 {
        let i = (pool.len() - 1) as nat;
        let a = factorial(i);
        lemma_factorial_positive(i);
        lemma_digit_bound(r, i);
        let d = lehmer_digit(r, i);
        let j = i - d;
        let rest = pool.remove(j);
        let q = permutation_unrank(rest, r);
        let p = q.push(pool[j]);
        assert(p.drop_last() =~= q);
        assert(strictly_increasing(rest));
        lemma_rank_of_unrank(rest, r);
        lemma_unrank_len(rest, r);
        // the digit that ranking reads off the last element is `d`
        lemma_unrank_arrangement(rest, r);
        lemma_count_greater_arrangement(q, rest, pool[j]);
        lemma_count_greater_remove(pool, j, pool[j]);
        lemma_count_greater_sorted(pool, j);
        assert(count_greater(q, pool[j]) == d);
        assert(permutation_rank(p) == d * a + r % a);
        lemma_mod_breakdown(r as int, a as int, (i + 1) as int);
        assert(a * (i + 1) == factorial(pool.len())) by (nonlinear_arith)
            requires
                factorial(pool.len()) == (i + 1) * a,
        ;
        assert(d * a == a * d) by (nonlinear_arith);
    }
}

/// Ranking and then unranking gives back the arrangement. The rank may be taken
/// modulo the number of arrangements.
pub proof fn lemma_unrank_of_rank(p: Seq<int>, pool: Seq<int>, m: nat)
    requires
        strictly_increasing(pool),
        is_arrangement_of(p, pool),
    ensures
        permutation_unrank(pool, permutation_rank(p) + m * factorial(p.len())) == p,
    decreases p.len(),
{
    if p.len() == 0 {
        assert(p =~= Seq::<int>::empty());
    } else {
        let i = (p.len() - 1) as nat;
        let a = factorial(i);
        lemma_factorial_positive(i);
        let q = p.drop_last();
        let c = count_greater(q, p.last());
        let r0 = permutation_rank(q);
        let r = permutation_rank(p) + m * factorial(p.len());
        lemma_rank_bound(q);
        lemma_count_greater_bound(q, p.last());
        // the leading digit of `r` is `c`
        assert(r == (c + m * (i + 1)) * a + r0) by (nonlinear_arith)
            requires
                r == c * a + r0 + m * ((i + 1) * a),
        ;
        lemma_fundamental_div_mod_converse(r as int, a as int, (c + m * (i + 1)) as int, r0 as int);
        lemma_fundamental_div_mod_converse((c + m * (i + 1)) as int, (i + 1) as int, m as int, c as int);
        assert(lehmer_digit(r, i) == c);
        // the element of the pool that the digit selects is the last of `p`
        assert(pool.contains(p[p.len() - 1]));
        let j = choose|j: int| 0 <= j < pool.len() && pool[j] == p.last();
        lemma_arrangement_step(p, pool, j);
        lemma_count_greater_arrangement(q, pool.remove(j), p.last());
        lemma_count_greater_remove(pool, j, pool[j]);
        lemma_count_greater_sorted(pool, j);
        assert(j == i - c);
        assert(strictly_increasing(pool.remove(j)));
        lemma_unrank_of_rank(q, pool.remove(j), c + m * (i + 1));
        assert(r == r0 + (c + m * (i + 1)) * factorial(q.len())) by (nonlinear_arith)
            requires
                r == (c + m * (i + 1)) * a + r0,
                a == factorial(q.len()),
        ;
        assert(q.push(p.last()) =~= p);
    }
}

/// The sequence 0, 1, .., n - 1 is increasing, and a permutation arranges it.
pub proof fn lemma_identity(n: nat, p: Seq<int>)
    ensures
        strictly_increasing(identity(n)),
        identity(n).no_duplicates(),
        is_permutation(identity(n)),
        is_permutation(p) ==> is_arrangement_of(p, identity(p.len())),
        is_arrangement_of(p, identity(p.len())) ==> is_permutation(p),
{
    if is_permutation(p) {
        assert forall|i: int| 0 <= i < p.len() implies identity(p.len()).contains(
            #[trigger] p[i],
        ) by {
            assert(identity(p.len())[p[i]] == p[i]);
        }
    }
    if is_arrangement_of(p, identity(p.len())) {
        assert forall|i: int| 0 <= i < p.len() implies 0 <= #[trigger] p[i] < p.len() by {
            assert(identity(p.len()).contains(p[i]));
        }
    }
}

/// Where every element exceeds `x`, the count is the length.
pub proof fn lemma_count_greater_all(s: Seq<int>, x: int)
    requires
        forall|i: int| 0 <= i < s.len() ==> s[i] > x,
    ensures
        count_greater(s, x) == s.len(),
    decreases s.len(),
{
    if s.len() > 0 {
        lemma_count_greater_all(s.drop_last(), x);
    }
}

/// If more elements exceed `a` than exceed `b`, one of them lies between the two.
pub proof fn lemma_count_greater_between(s: Seq<int>, a: int, b: int)
    requires
        count_greater(s, a) > count_greater(s, b),
    ensures
        exists|i: int| 0 <= i < s.len() && a < #[trigger] s[i] && s[i] <= b,
    decreases s.len(),
{
    if s.len() > 0 {
        if a < s.last() <= b {
            assert(a < s[s.len() - 1] && s[s.len() - 1] <= b);
        } else {
            lemma_count_greater_between(s.drop_last(), a, b);
            let t = s.drop_last();
            let i = choose|i: int| 0 <= i < t.len() && a < #[trigger] t[i] && t[i] <= b;
            assert(a < s[i] && s[i] <= b);
        }
    }
}

/// A permutation of 0, 1, .., n - 1 holds every one of these numbers.
pub proof fn lemma_permutation_surjective(p: Seq<int>, v: int)
    requires
        is_permutation(p),
        0 <= v < p.len(),
    ensures
        exists|i: int| 0 <= i < p.len() && p[i] == v,
{
    let id = identity(p.len());
    lemma_identity(p.len(), p);
    lemma_count_greater_arrangement(p, id, v);
    lemma_count_greater_arrangement(p, id, v - 1);
    lemma_count_greater_sorted(id, v);
    if v == 0 {
        lemma_count_greater_all(id, -1);
    } else {
        lemma_count_greater_sorted(id, v - 1);
    }
    lemma_count_greater_between(p, v - 1, v);
    let i = choose|i: int| 0 <= i < p.len() && v - 1 < #[trigger] p[i] && p[i] <= v;
    assert(p[i] == v);
}

/// Decoding the rank of a permutation gives the permutation back.
pub proof fn lemma_permutation_round_trip(p: Seq<int>)
    requires
        is_permutation(p),
    ensures
        permutation_rank(p) < factorial(p.len()),
        permutation_unrank(identity(p.len()), permutation_rank(p)) == p,
{
    lemma_identity(p.len(), p);
    lemma_rank_bound(p);
    lemma_unrank_of_rank(p, identity(p.len()), 0);
    assert(0 * factorial(p.len()) == 0);
}

/// Decoding a rank below `n!` gives a permutation of 0, 1, .., n - 1, and encoding
/// that permutation gives the rank back.
pub proof fn lemma_rank_round_trip(n: nat, r: nat)
    requires
        r < factorial(n),
    ensures
        is_permutation(permutation_unrank(identity(n), r)),
        permutation_unrank(identity(n), r).len() == n,
        permutation_rank(permutation_unrank(identity(n), r)) == r,
{
    let p = permutation_unrank(identity(n), r);
    lemma_identity(n, p);
    lemma_unrank_len(identity(n), r);
    lemma_unrank_arrangement(identity(n), r);
    lemma_rank_of_unrank(identity(n), r);
    vstd::arithmetic::div_mod::lemma_small_mod(r, factorial(n));
}

} // verus!
