//! Ranking of orientation vectors.
//!
//! An orientation vector holds one digit below the base for each piece. On a
//! puzzle that can be solved the digits add up to a multiple of the base, so the
//! last digit follows from the others, and the rank is the number that the others
//! spell in that base, most significant digit first.

use vstd::arithmetic::div_mod::{
    lemma_add_mod_noop, lemma_fundamental_div_mod_converse, lemma_mod_bound, lemma_mod_breakdown,
    lemma_mod_self_0, lemma_small_mod,
};
use vstd::arithmetic::power::{lemma_pow_positive, pow};
use vstd::prelude::*;

verus! {

/// The number that `digits` spell in the given base, most significant digit first.
pub open spec fn horner(digits: Seq<int>, base: int) -> int
    decreases digits.len(),
{
    if digits.len() == 0 {
        0
    } else {
        horner(digits.drop_last(), base) * base + digits.last()
    }
}

/// The last `n` digits of `r` in the given base, most significant digit first.
pub open spec fn digits_of(r: int, n: nat, base: int) -> Seq<int>
    decreases n,
{
    if n == 0 {
        Seq::empty()
    } else {
        digits_of(r / base, (n - 1) as nat, base).push(r % base)
    }
}

/// The sum of the digits.
pub open spec fn digit_sum(v: Seq<int>) -> int
    decreases v.len(),
{
    if v.len() == 0 {
        0
    } else {
        digit_sum(v.drop_last()) + v.last()
    }
}

/// Whether every digit of `v` is a digit of the given base.
pub open spec fn in_range(v: Seq<int>, base: int) -> bool {
    forall|i: int| 0 <= i < v.len() ==> 0 <= #[trigger] v[i] < base
}

/// Whether the digits of `v` add up to a multiple of the base.
pub open spec fn is_zero_sum(v: Seq<int>, base: int) -> bool {
    digit_sum(v) % base == 0
}

/// The digit that makes the sum of `digits` and itself a multiple of the base.
pub open spec fn balancing_digit(digits: Seq<int>, base: int) -> int {
    (base - digit_sum(digits) % base) % base
}

/// The rank of an orientation vector: the number that all its digits but the last
/// spell in the given base.
pub open spec fn orientation_rank(v: Seq<int>, base: int) -> int {
    horner(v.drop_last(), base)
}

/// The zero-sum orientation vector of `n` digits with the given rank.
pub open spec fn orientation_unrank(r: int, n: nat, base: int) -> Seq<int> {
    let digits = digits_of(r, (n - 1) as nat, base);
    digits.push(balancing_digit(digits, base))
}

/// Digits of a base spell a number below the power of the base by their count.
pub proof fn lemma_horner_bound(digits: Seq<int>, base: int)
    requires
        base >= 1,
        in_range(digits, base),
    ensures
        0 <= horner(digits, base) < pow(base, digits.len()),
    decreases digits.len(),
{
    reveal(pow);
    if digits.len() > 0 {
        let d = digits.drop_last();
        lemma_horner_bound(d, base);
        assert(pow(base, digits.len()) == base * pow(base, d.len()));
        assert(0 <= horner(d, base) * base + digits.last() < base * pow(base, d.len()))
            by (nonlinear_arith)
            requires
                0 <= horner(d, base) < pow(base, d.len()),
                0 <= digits.last() < base,
        ;
    }
}

/// The last `n` digits of a number are `n` digits of the base.
pub proof fn lemma_digits_of_len(r: int, n: nat, base: int)
    requires
        base >= 1,
    ensures
        digits_of(r, n, base).len() == n,
        in_range(digits_of(r, n, base), base),
    decreases n,
{
    if n > 0 {
        lemma_digits_of_len(r / base, (n - 1) as nat, base);
    }
}

/// The digits of the number that `digits` spell are `digits`.
pub proof fn lemma_digits_of_horner(digits: Seq<int>, base: int)
    requires
        base >= 1,
        in_range(digits, base),
    ensures
        digits_of(horner(digits, base), digits.len(), base) == digits,
    decreases digits.len(),
{
    if digits.len() == 0 {
        assert(digits =~= Seq::<int>::empty());
    } else {
        let d = digits.drop_last();
        lemma_digits_of_horner(d, base);
        lemma_fundamental_div_mod_converse(
            horner(digits, base),
            base,
            horner(d, base),
            digits.last(),
        );
        assert(d.push(digits.last()) =~= digits);
    }
}

/// The last `n` digits of `r` spell `r` modulo the `n`-th power of the base.
pub proof fn lemma_horner_of_digits(r: int, n: nat, base: int)
    requires
        base >= 1,
        r >= 0,
    ensures
        horner(digits_of(r, n, base), base) == r % pow(base, n),
    decreases n,
{
    reveal(pow);
    if n > 0 {
        let m = (n - 1) as nat;
        let d = digits_of(r / base, m, base);
        lemma_horner_of_digits(r / base, m, base);
        lemma_pow_positive(base, m);
        assert(d.push(r % base).drop_last() =~= d);
        lemma_mod_breakdown(r, base, pow(base, m));
        assert(((r / base) % pow(base, m)) * base == base * ((r / base) % pow(base, m)))
            by (nonlinear_arith);
    }
}

/// Replacing a digit changes the sum by the difference of the two digits.
pub proof fn lemma_digit_sum_update(v: Seq<int>, i: int, d: int)
    requires
        0 <= i < v.len(),
    ensures
        digit_sum(v.update(i, d)) == digit_sum(v) - v[i] + d,
    decreases v.len(),
{
    let u = v.update(i, d);
    if i == v.len() - 1 {
        assert(u.drop_last() =~= v.drop_last());
    } else {
        lemma_digit_sum_update(v.drop_last(), i, d);
        assert(u.drop_last() =~= v.drop_last().update(i, d));
    }
}

/// Where each digit of `w` is the sum of the digits of `v` and `d` at its position,
/// reduced modulo `m`, the sum of `w` is that of `v` and `d`, modulo `m`.
pub proof fn lemma_digit_sum_shifted(v: Seq<int>, d: Seq<int>, w: Seq<int>, m: int)
    requires
        m >= 1,
        v.len() == d.len(),
        v.len() == w.len(),
        forall|i: int| 0 <= i < w.len() ==> #[trigger] w[i] == (v[i] + d[i]) % m,
    ensures
        digit_sum(w) % m == (digit_sum(v) + digit_sum(d)) % m,
    decreases w.len(),
{
    if w.len() > 0 {
        lemma_digit_sum_shifted(v.drop_last(), d.drop_last(), w.drop_last(), m);
        let a = digit_sum(w.drop_last());
        let b = digit_sum(v.drop_last()) + digit_sum(d.drop_last());
        let x = v.last() + d.last();
        assert(w.last() == x % m);
        lemma_add_mod_noop(a, x % m, m);
        lemma_add_mod_noop(b, x, m);
        lemma_add_mod_noop(b, x % m, m);
        vstd::arithmetic::div_mod::lemma_mod_twice(x, m);
    }
}

/// The balancing digit is a digit, and it alone makes the sum a multiple of the base.
pub proof fn lemma_balancing_digit(digits: Seq<int>, base: int, last: int)
    requires
        base >= 1,
    ensures
        0 <= balancing_digit(digits, base) < base,
        is_zero_sum(digits.push(balancing_digit(digits, base)), base),
        0 <= last < base && is_zero_sum(digits.push(last), base) ==> last == balancing_digit(
            digits,
            base,
        ),
{
    let s = digit_sum(digits);
    let t = s % base;
    let b = balancing_digit(digits, base);
    lemma_mod_bound(s, base);
    lemma_mod_self_0(base);
    assert(digits.push(b).drop_last() =~= digits);
    assert(digits.push(last).drop_last() =~= digits);
    if t == 0 {
        assert(b == 0);
    } else {
        lemma_small_mod((base - t) as nat, base as nat);
        assert(b == base - t);
    }
    lemma_small_mod(b as nat, base as nat);
    lemma_add_mod_noop(s, b, base);
    assert((t + b) % base == 0);
    if 0 <= last < base && is_zero_sum(digits.push(last), base) {
        lemma_small_mod(last as nat, base as nat);
        lemma_add_mod_noop(s, last, base);
        assert((t + last) % base == 0);
        if t + last < base {
            lemma_small_mod((t + last) as nat, base as nat);
        } else {
            lemma_fundamental_div_mod_converse(t + last, base, 1, t + last - base);
        }
    }
}

/// Decoding the rank of a zero-sum orientation vector gives the vector back.
pub proof fn lemma_orientation_round_trip(v: Seq<int>, base: int)
    requires
        base >= 1,
        v.len() >= 1,
        in_range(v, base),
        is_zero_sum(v, base),
    ensures
        0 <= orientation_rank(v, base) < pow(base, (v.len() - 1) as nat),
        orientation_unrank(orientation_rank(v, base), v.len(), base) == v,
{
    let d = v.drop_last();
    lemma_horner_bound(d, base);
    lemma_digits_of_horner(d, base);
    assert(d.push(v.last()) =~= v);
    lemma_balancing_digit(d, base, v.last());
}

/// Decoding a rank gives a zero-sum orientation vector, and encoding that vector
/// gives the rank back, if the rank is below the number of such vectors.
pub proof fn lemma_orientation_rank_round_trip(r: int, n: nat, base: int)
    requires
        base >= 1,
        n >= 1,
        0 <= r < pow(base, (n - 1) as nat),
    ensures
        orientation_unrank(r, n, base).len() == n,
        in_range(orientation_unrank(r, n, base), base),
        is_zero_sum(orientation_unrank(r, n, base), base),
        orientation_rank(orientation_unrank(r, n, base), base) == r,
{
    let m = (n - 1) as nat;
    let d = digits_of(r, m, base);
    lemma_digits_of_len(r, m, base);
    lemma_balancing_digit(d, base, 0);
    assert(d.push(balancing_digit(d, base)).drop_last() =~= d);
    lemma_horner_of_digits(r, m, base);
    lemma_small_mod(r as nat, pow(base, m) as nat);
}

} // verus!
