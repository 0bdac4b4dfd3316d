//! Sets of cubes, the sets that move sets generate, and the search for a way from a
//! cube into a set.

use super::moves::{Generated, Htm, Move333, MoveGenerator};
use super::{
    corner_twists_to_u8, corners_to_u8, digits, edge_flips_to_u8, edges_to_u8, CubieCube,
    CubieState,
};
use crate::generic::{apply_path, is_path, lemma_apply_path_first};
use crate::ranking::orientation::{horner, in_range, lemma_digits_of_horner, lemma_horner_bound};
use std::collections::HashSet;
use vstd::arithmetic::div_mod::lemma_fundamental_div_mod_converse;
use vstd::arithmetic::power::{lemma_pow_increases, pow};
use vstd::prelude::*;

verus! {

broadcast use vstd::std_specs::hash::group_hash_axioms;

/// The number of corner permutation digits in base 8: 8^8.
pub const CP_KEYS: u128 = 16777216;

/// The number of edge orientation digits in base 2: 2^12.
pub const EO_KEYS: u128 = 4096;

/// The number of edge permutation digits in base 12: 12^12.
pub const EP_KEYS: u128 = 8916100448256;

impl CubieState {
    /// A number that tells the state from every other: the four arrays of the state
    /// read as numbers, in the bases 3, 8, 2 and 12, one after the other.
    pub open spec fn key(self) -> int {
        ((horner(self.co, 3) * CP_KEYS + horner(self.cp, 8)) * EO_KEYS + horner(self.eo, 2))
            * EP_KEYS + horner(self.ep, 12)
    }
}

/// The powers that bound the parts of a key.
pub proof fn lemma_key_powers()
    ensures
        pow(3, 8) == 6561,
        pow(8, 8) == CP_KEYS,
        pow(2, 12) == EO_KEYS,
        pow(12, 12) == EP_KEYS,
{
    reveal_with_fuel(pow, 13);
    assert(pow(12, 6) == 2985984);
    assert(pow(12, 12) == 12 * (12 * (12 * (12 * (12 * (12 * pow(12, 6)))))));
}

/// The key of a state is below 2^92.
pub proof fn lemma_key_bound(s: CubieState)
    requires
        s.well_formed(),
    ensures
        0 <= s.key() < 0x1000_0000_0000_0000_0000_0000,
        0 <= horner(s.co, 3) < 6561,
        0 <= horner(s.cp, 8) < CP_KEYS,
        0 <= horner(s.eo, 2) < EO_KEYS,
        0 <= horner(s.ep, 12) < EP_KEYS,
{
    lemma_key_powers();
    lemma_horner_bound(s.co, 3);
    lemma_horner_bound(s.cp, 8);
    lemma_horner_bound(s.eo, 2);
    lemma_horner_bound(s.ep, 12);
    let a = horner(s.co, 3);
    let b = horner(s.cp, 8);
    let c = horner(s.eo, 2);
    let d = horner(s.ep, 12);
    assert(a * 16777216 + b < 6561 * 16777216);
    assert((a * 16777216 + b) * 4096 + c < 6561 * 16777216 * 4096);
}

/// States with the same key are the same state.
pub proof fn lemma_key_injective(s: CubieState, t: CubieState)
    requires
        s.well_formed(),
        t.well_formed(),
        s.key() == t.key(),
    ensures
        s == t,
{
    lemma_key_bound(s);
    lemma_key_bound(t);
    let s3 = (horner(s.co, 3) * CP_KEYS + horner(s.cp, 8)) * EO_KEYS + horner(s.eo, 2);
    let t3 = (horner(t.co, 3) * CP_KEYS + horner(t.cp, 8)) * EO_KEYS + horner(t.eo, 2);
    lemma_fundamental_div_mod_converse(s.key(), EP_KEYS as int, s3, horner(s.ep, 12));
    lemma_fundamental_div_mod_converse(t.key(), EP_KEYS as int, t3, horner(t.ep, 12));
    let s2 = horner(s.co, 3) * CP_KEYS + horner(s.cp, 8);
    let t2 = horner(t.co, 3) * CP_KEYS + horner(t.cp, 8);
    lemma_fundamental_div_mod_converse(s3, EO_KEYS as int, s2, horner(s.eo, 2));
    lemma_fundamental_div_mod_converse(t3, EO_KEYS as int, t2, horner(t.eo, 2));
    lemma_fundamental_div_mod_converse(s2, CP_KEYS as int, horner(s.co, 3), horner(s.cp, 8));
    lemma_fundamental_div_mod_converse(t2, CP_KEYS as int, horner(t.co, 3), horner(t.cp, 8));
    lemma_digits_of_horner(s.co, 3);
    lemma_digits_of_horner(t.co, 3);
    lemma_digits_of_horner(s.cp, 8);
    lemma_digits_of_horner(t.cp, 8);
    lemma_digits_of_horner(s.eo, 2);
    lemma_digits_of_horner(t.eo, 2);
    lemma_digits_of_horner(s.ep, 12);
    lemma_digits_of_horner(t.ep, 12);
}

/// The number that the bytes of `arr` spell in the given base, most significant
/// digit first.
pub fn value_of<const COUNT: usize>(arr: &[u8; COUNT], base: u8) -> (r: u64)
    requires
        1 <= base <= 12,
        COUNT <= 12,
        in_range(digits(arr@), base as int),
    ensures
        r == horner(digits(arr@), base as int),
{
    let ghost v = digits(arr@);
    let mut acc: u64 = 0;
    let mut i: usize = 0;
    proof {
        lemma_key_powers();
    }
    while i < COUNT
        invariant
            i <= COUNT <= 12,
            1 <= base <= 12,
            v == digits(arr@),
            in_range(v, base as int),
            pow(12, 12) == EP_KEYS,
            acc == horner(v.take(i as int), base as int),
        decreases COUNT - i,
    {
        proof {
            let next = v.take(i + 1);
            assert(next.drop_last() =~= v.take(i as int));
            assert(next.last() == arr[i as int]);
            lemma_horner_bound(next, base as int);
            lemma_pow_increases(base as nat, (i + 1) as nat, 12);
            lemma_pow_bases(base as int, 12);
            assert(0 <= acc * base <= horner(next, base as int)) by (nonlinear_arith)
                requires
                    horner(next, base as int) == acc * base + arr[i as int],
                    acc >= 0,
                    base >= 1,
            ;
        }
        acc = acc * (base as u64) + arr[i] as u64;
        i += 1;
    }
    assert(v.take(COUNT as int) =~= v);
    acc
}

/// A power grows with its base.
pub proof fn lemma_pow_bases(base: int, e: nat)
    requires
        1 <= base <= 12,
    ensures
        pow(base, e) <= pow(12, e),
    decreases e,
{
    reveal(pow);
    if e > 0 {
        lemma_pow_bases(base, (e - 1) as nat);
        vstd::arithmetic::power::lemma_pow_positive(base, (e - 1) as nat);
        assert(base * pow(base, (e - 1) as nat) <= 12 * pow(12, (e - 1) as nat))
            by (nonlinear_arith)
            requires
                1 <= base <= 12,
                0 < pow(base, (e - 1) as nat) <= pow(12, (e - 1) as nat),
        ;
    }
}

impl CubieCube {
    /// A number that tells the cube from every other.
    pub fn key(&self) -> (r: u128)
        ensures
            r == self@.key(),
    {
        proof {
            self.lemma_well_formed();
            lemma_key_bound(self@);
        }
        let co = value_of::<8>(&corner_twists_to_u8(&self.co), 3) as u128;
        let cp = value_of::<8>(&corners_to_u8(&self.cp), 8) as u128;
        let eo = value_of::<12>(&edge_flips_to_u8(&self.eo), 2) as u128;
        let ep = value_of::<12>(&edges_to_u8(&self.ep), 12) as u128;
        assert(co * 16777216 + cp < 6561 * 16777216);
        assert((co * 16777216 + cp) * 4096 + eo < 6561 * 16777216 * 4096);
        ((co * CP_KEYS + cp) * EO_KEYS + eo) * EP_KEYS + ep
    }
}

/// A set of cubes.
pub struct GeneratorSet {
    cubes: Vec<CubieCube>,
    keys: HashSet<u128>,
}

impl View for GeneratorSet {
    type V = Set<CubieState>;

    closed spec fn view(&self) -> Set<CubieState> {
        Set::new(
            |s: CubieState| exists|i: int| 0 <= i < self.cubes.len() && #[trigger] self.cubes[i]@ == s,
        )
    }
}

impl GeneratorSet {
    /// Whether the set is well formed: it keeps the key of every one of its cubes,
    /// and no other key, and it keeps no cube twice.
    pub closed spec fn wf(&self) -> bool {
        &&& forall|k: u128|
            self.keys@.contains(k) <==> exists|i: int|
                0 <= i < self.cubes.len() && #[trigger] self.cubes[i]@.key() == k
        &&& forall|i: int, j: int|
            0 <= i < j < self.cubes.len() ==> #[trigger] self.cubes[i]@ != #[trigger] self.cubes[j]@
    }

    /// The empty set.
    pub fn new() -> (r: GeneratorSet)
        ensures
            r.wf(),
            r.count() == 0,
            r@ == Set::<CubieState>::empty(),
    {
        let r = GeneratorSet { cubes: Vec::new(), keys: HashSet::new() };
        assert(r@ =~= Set::<CubieState>::empty());
        r
    }

    /// Whether the cube is in the set.
    pub fn contains(&self, cube: &CubieCube) -> (r: bool)
        requires
            self.wf(),
        ensures
            r == self@.contains(cube@),
    {
        let key = cube.key();
        let r = self.keys.contains(&key);
        proof {
            if r {
                let i = choose|i: int|
                    0 <= i < self.cubes.len() && #[trigger] self.cubes[i]@.key() == key;
                self.cubes[i].lemma_well_formed();
                cube.lemma_well_formed();
                lemma_key_injective(self.cubes[i]@, cube@);
            } else if self@.contains(cube@) {
                let i = choose|i: int| 0 <= i < self.cubes.len() && #[trigger] self.cubes[i]@ == cube@;
                assert(self.cubes[i]@.key() == key);
            }
        }
        r
    }

    /// Puts the cube into the set, and says whether it was not yet there.
    pub fn insert(&mut self, cube: CubieCube) -> (fresh: bool)
        requires
            old(self).wf(),
        ensures
            final(self).wf(),
            final(self)@ == old(self)@.insert(cube@),
            fresh == !old(self)@.contains(cube@),
            final(self).count() == old(self).count() + if fresh {
                1int
            } else {
                0int
            },
            fresh ==> final(self).spec_cube(old(self).count() as int) == cube,
            forall|i: int|
                0 <= i < old(self).count() ==> final(self).spec_cube(i) == old(self).spec_cube(i),
    {
        let found = self.contains(&cube);
        if found {
            false
        } else {
            let key = cube.key();
            let ghost before = self.cubes@;
            self.keys.insert(key);
            self.cubes.push(cube);
            proof {
                assert forall|k: u128|
                    self.keys@.contains(k) <==> exists|i: int|
                        0 <= i < self.cubes.len() && #[trigger] self.cubes[i]@.key() == k by {
                    if self.keys@.contains(k) {
                        if k == key {
                            assert(self.cubes[before.len() as int]@.key() == k);
                        } else {
                            let i = choose|i: int|
                                0 <= i < before.len() && #[trigger] before[i]@.key() == k;
                            assert(self.cubes[i]@.key() == k);
                        }
                    }
                    if exists|i: int|
                        0 <= i < self.cubes.len() && #[trigger] self.cubes[i]@.key() == k {
                        let i = choose|i: int|
                            0 <= i < self.cubes.len() && #[trigger] self.cubes[i]@.key() == k;
                        if i < before.len() {
                            assert(before[i]@.key() == k);
                        }
                    }
                }
                assert forall|s: CubieState| self@.contains(s) <==> old(self)@.insert(
                    cube@,
                ).contains(s) by {
                    if self@.contains(s) {
                        let i = choose|i: int|
                            0 <= i < self.cubes.len() && #[trigger] self.cubes[i]@ == s;
                        if i < before.len() {
                            assert(before[i]@ == s);
                        }
                    }
                    if old(self)@.contains(s) {
                        let i = choose|i: int| 0 <= i < before.len() && #[trigger] before[i]@ == s;
                        assert(self.cubes[i]@ == s);
                    }
                    if s == cube@ {
                        assert(self.cubes[before.len() as int]@ == s);
                    }
                }
                assert(self@ =~= old(self)@.insert(cube@));
                assert forall|i: int, j: int| 0 <= i < j < self.cubes.len() implies #[trigger] self.cubes[i]@
                    != #[trigger] self.cubes[j]@ by {
                    if j < before.len() {
                        assert(before[i]@ != before[j]@);
                    } else {
                        assert(before[i]@ == self.cubes[i]@);
                        if self.cubes[i]@ == cube@ {
                            assert(old(self)@.contains(cube@));
                        }
                    }
                }
            }
            true
        }
    }

    /// The number of cubes in the set.
    pub closed spec fn count(&self) -> nat {
        self.cubes.len() as nat
    }

    /// The cube that was put into the set as the `i`-th.
    pub closed spec fn spec_cube(&self, i: int) -> CubieCube {
        self.cubes[i]
    }

    /// The number of cubes in the set.
    pub fn len(&self) -> (r: usize)
        requires
            self.wf(),
        ensures
            r == self.count(),
            r == self@.len(),
            self@.finite(),
    {
        proof {
            self.lemma_first_len(self.count() as int);
            self.lemma_first(0);
        }
        self.cubes.len()
    }

    /// The first `n` cubes that were put into the set are `n` cubes.
    pub proof fn lemma_first_len(&self, n: int)
        requires
            self.wf(),
            0 <= n <= self.count(),
        ensures
            self.first(n).finite(),
            self.first(n).len() == n,
        decreases n,
    {
        self.lemma_first(n - 1);
        if n > 0 {
            self.lemma_first_len(n - 1);
            if self.first(n - 1).contains(self.spec_cube(n - 1)@) {
                let k = choose|k: int| 0 <= k < n - 1 && #[trigger] self.spec_cube(k)@ == self.spec_cube(
                    n - 1,
                )@;
                assert(self.cubes[k]@ != self.cubes[n - 1]@);
            }
        }
    }

    /// The cube that was put into the set as the `i`-th.
    pub fn cube(&self, i: usize) -> (r: CubieCube)
        requires
            i < self.count(),
        ensures
            r == self.spec_cube(i as int),
            self@.contains(r@),
    {
        self.cubes[i]
    }

    /// The cubes of the set are those that were put into it.
    pub proof fn lemma_cubes(&self)
        ensures
            forall|s: CubieState|
                self@.contains(s) <==> exists|i: int|
                    0 <= i < self.count() && #[trigger] self.spec_cube(i)@ == s,
    {
        assert forall|s: CubieState|
            self@.contains(s) <==> exists|i: int|
                0 <= i < self.count() && #[trigger] self.spec_cube(i)@ == s by {
            if self@.contains(s) {
                let i = choose|i: int| 0 <= i < self.cubes.len() && #[trigger] self.cubes[i]@ == s;
                assert(self.spec_cube(i)@ == s);
            }
            if exists|i: int| 0 <= i < self.count() && #[trigger] self.spec_cube(i)@ == s {
                let i = choose|i: int| 0 <= i < self.count() && #[trigger] self.spec_cube(i)@ == s;
                assert(self.cubes[i]@ == s);
            }
        }
    }

    /// The cubes that the moves of `G` lead to from `cube`.
    pub fn from_generator_trait<G: MoveGenerator>(cube: CubieCube) -> (r: GeneratorSet)
        ensures
            r.wf(),
            r@ == generated::<G>(cube@),
    {
        let mut set = GeneratorSet::new();
        set.insert(cube);
        let n = G::size();
        let mut next: usize = 0;
        proof {
            lemma_generated_start::<G>(cube@);
        }
        while next < set.len()
            invariant
                set.wf(),
                n == G::moves().len(),
                next <= set.count(),
                set@.contains(cube@),
                forall|s: CubieState| set@.contains(s) ==> #[trigger] generated::<G>(cube@).contains(s),
                forall|i: int, g: int|
                    0 <= i < next && 0 <= g < n ==> set@.contains(
                        #[trigger] set.spec_cube(i)@.make_move(G::moves()[g]),
                    ),
            decreases usize::MAX - next,
        {
            let current = set.cube(next);
            let mut g: usize = 0;
            while g < n
                invariant
                    set.wf(),
                    n == G::moves().len(),
                    g <= n,
                    next < set.count(),
                    set.spec_cube(next as int) == current,
                    set@.contains(cube@),
                    forall|s: CubieState|
                        set@.contains(s) ==> #[trigger] generated::<G>(cube@).contains(s),
                    forall|i: int, h: int|
                        0 <= i < next && 0 <= h < n ==> set@.contains(
                            #[trigger] set.spec_cube(i)@.make_move(G::moves()[h]),
                        ),
                    forall|h: int|
                        0 <= h < g ==> set@.contains(#[trigger] current@.make_move(G::moves()[h])),
                decreases n - g,
            {
                let moved = current.make_move(G::move_at(g));
                proof {
                    lemma_generated_step::<G>(cube@, current@, g as int);
                }
                set.insert(moved);
                g += 1;
            }
            next += 1;
        }
        proof {
            set.lemma_cubes();
            assert forall|s: CubieState, g: int| set@.contains(s) && 0 <= g < n implies set@.contains(
                #[trigger] s.make_move(G::moves()[g]),
            ) by {
                let i = choose|i: int| 0 <= i < set.count() && #[trigger] set.spec_cube(i)@ == s;
                assert(set@.contains(set.spec_cube(i)@.make_move(G::moves()[g])));
            }
            assert forall|s: CubieState| generated::<G>(cube@).contains(s) implies set@.contains(
                s,
            ) by {
                let path = choose|path: Seq<int>|
                    is_path::<Generated<G>>(path) && apply_path::<Generated<G>>(cube@, path) == s;
                lemma_closed_holds_generated::<G>(set@, cube@, path);
            }
            assert(set@ =~= generated::<G>(cube@));
        }
        set
    }

    /// The cubes that the moves of `G` lead to from `cube`, each with a shortest
    /// sequence of moves of `G` that leads to it from `cube`. The cubes come in the
    /// order in which a search in the breadth finds them, so the sequences do not get
    /// shorter along the list.
    pub fn from_generator_trait_with_solutions<G: MoveGenerator>(cube: CubieCube) -> (r: (
        GeneratorSet,
        Vec<Vec<Move333>>,
    ))
        ensures
            r.0.wf(),
            r.0@ == generated::<G>(cube@),
            r.1.len() == r.0.count(),
            forall|i: int|
                0 <= i < r.1.len() ==> is_sequence_of::<G>(#[trigger] r.1[i]@) && cube@.make_moves(
                    r.1[i]@,
                ) == r.0.spec_cube(i)@,
            forall|i: int|
                0 <= i < r.1.len() ==> no_shorter_way::<G>(
                    cube@,
                    r.0.spec_cube(i)@,
                    (#[trigger] r.1[i]).len() as nat,
                ),
            forall|i: int, j: int|
                0 <= i <= j < r.1.len() ==> (#[trigger] r.1[i]).len() <= (#[trigger] r.1[j]).len(),
    {
        let mut set = GeneratorSet::new();
        let mut solutions: Vec<Vec<Move333>> = Vec::new();
        set.insert(cube);
        solutions.push(Vec::new());
        let n = G::size();
        let mut next: usize = 0;
        proof {
            lemma_generated_start::<G>(cube@);
            assert(cube@.make_moves(solutions[0]@) == cube@);
            assert forall|q: Seq<int>|
                is_path::<Generated<G>>(q) && q.len() <= 0 implies set@.contains(
                #[trigger] apply_path::<Generated<G>>(cube@, q),
            ) by {
                assert(apply_path::<Generated<G>>(cube@, q) == cube@);
            }
        }
        while next < set.len()
            invariant
                set.wf(),
                n == G::moves().len(),
                next <= set.count(),
                set@.contains(cube@),
                solutions.len() == set.count(),
                forall|s: CubieState| set@.contains(s) ==> #[trigger] generated::<G>(cube@).contains(s),
                forall|i: int, g: int|
                    0 <= i < next && 0 <= g < n ==> set@.contains(
                        #[trigger] set.spec_cube(i)@.make_move(G::moves()[g]),
                    ),
                forall|i: int|
                    0 <= i < solutions.len() ==> is_sequence_of::<G>(#[trigger] solutions[i]@)
                        && cube@.make_moves(solutions[i]@) == set.spec_cube(i)@,
                forall|i: int|
                    0 <= i < solutions.len() ==> no_shorter_way::<G>(
                        cube@,
                        set.spec_cube(i)@,
                        (#[trigger] solutions[i]).len() as nat,
                    ),
                forall|i: int, j: int|
                    0 <= i <= j < solutions.len() ==> (#[trigger] solutions[i]).len() <= (
                    #[trigger] solutions[j]).len(),
                forall|j: int|
                    0 <= j < solutions.len() && next < solutions.len() ==> (
                    #[trigger] solutions[j]).len() <= solutions[next as int].len() + 1,
                next < solutions.len() ==> forall|q: Seq<int>|
                    is_path::<Generated<G>>(q) && q.len() <= solutions[next as int].len()
                        ==> set@.contains(#[trigger] apply_path::<Generated<G>>(cube@, q)),
            decreases usize::MAX - next,
        {
            let current = set.cube(next);
            let ghost level = solutions[next as int].len();
            let mut g: usize = 0;
            while g < n
                invariant
                    set.wf(),
                    n == G::moves().len(),
                    g <= n,
                    next < set.count(),
                    set.spec_cube(next as int) == current,
                    set@.contains(cube@),
                    solutions.len() == set.count(),
                    level == solutions[next as int].len(),
                    forall|s: CubieState|
                        set@.contains(s) ==> #[trigger] generated::<G>(cube@).contains(s),
                    forall|i: int, h: int|
                        0 <= i < next && 0 <= h < n ==> set@.contains(
                            #[trigger] set.spec_cube(i)@.make_move(G::moves()[h]),
                        ),
                    forall|h: int|
                        0 <= h < g ==> set@.contains(#[trigger] current@.make_move(G::moves()[h])),
                    forall|i: int|
                        0 <= i < solutions.len() ==> is_sequence_of::<G>(#[trigger] solutions[i]@)
                            && cube@.make_moves(solutions[i]@) == set.spec_cube(i)@,
                    forall|i: int|
                        0 <= i < solutions.len() ==> no_shorter_way::<G>(
                            cube@,
                            set.spec_cube(i)@,
                            (#[trigger] solutions[i]).len() as nat,
                        ),
                    forall|i: int, j: int|
                        0 <= i <= j < solutions.len() ==> (#[trigger] solutions[i]).len() <= (
                        #[trigger] solutions[j]).len(),
                    forall|j: int|
                        0 <= j < solutions.len() ==> (#[trigger] solutions[j]).len() <= level + 1,
                    forall|q: Seq<int>|
                        is_path::<Generated<G>>(q) && q.len() <= level ==> set@.contains(
                            #[trigger] apply_path::<Generated<G>>(cube@, q),
                        ),
                decreases n - g,
            {
                let mv = G::move_at(g);
                let moved = current.make_move(mv);
                proof {
                    lemma_generated_step::<G>(cube@, current@, g as int);
                }
                if set.insert(moved) {
                    let longer = extended(&solutions[next], mv);
                    proof {
                        assert(longer@.drop_last() =~= solutions[next as int]@);
                        assert(is_sequence_of::<G>(longer@)) by {
                            assert forall|k: int| 0 <= k < longer@.len() implies is_move_of::<G>(
                                #[trigger] longer@[k],
                            ) by {
                                if k < longer@.len() - 1 {
                                    assert(longer@[k] == solutions[next as int]@[k]);
                                } else {
                                    assert(G::moves()[g as int] == longer@[k]);
                                }
                            }
                        }
                        // a shorter way to the new cube would have brought it into the
                        // set before
                        assert(no_shorter_way::<G>(cube@, moved@, longer.len() as nat));
                    }
                    solutions.push(longer);
                }
                g += 1;
            }
            proof {
                // every cube that a path of one more move leads to comes after a cube
                // that is in the set, and that was looked at
                if next + 1 < solutions.len() && solutions[next + 1].len() > level {
                    set.lemma_cubes();
                    assert forall|q: Seq<int>|
                        is_path::<Generated<G>>(q) && q.len() <= solutions[next + 1].len() implies set@.contains(
                        #[trigger] apply_path::<Generated<G>>(cube@, q),
                    ) by {
                        if q.len() > level {
                            let shorter = q.drop_last();
                            let before = apply_path::<Generated<G>>(cube@, shorter);
                            assert(is_path::<Generated<G>>(shorter));
                            assert(set@.contains(before));
                            let k = choose|k: int|
                                0 <= k < set.count() && #[trigger] set.spec_cube(k)@ == before;
                            assert(solutions[k].len() <= shorter.len());
                            assert(0 <= q[q.len() - 1] < n);
                            if k > next {
                                assert(solutions[next + 1].len() <= solutions[k].len());
                            }
                            assert(set@.contains(set.spec_cube(k)@.make_move(G::moves()[q.last()])));
                        }
                    }
                }
            }
            next += 1;
        }
        proof {
            set.lemma_cubes();
            assert forall|s: CubieState, g: int| set@.contains(s) && 0 <= g < n implies set@.contains(
                #[trigger] s.make_move(G::moves()[g]),
            ) by {
                let i = choose|i: int| 0 <= i < set.count() && #[trigger] set.spec_cube(i)@ == s;
                assert(set@.contains(set.spec_cube(i)@.make_move(G::moves()[g])));
            }
            assert forall|s: CubieState| generated::<G>(cube@).contains(s) implies set@.contains(
                s,
            ) by {
                let path = choose|path: Seq<int>|
                    is_path::<Generated<G>>(path) && apply_path::<Generated<G>>(cube@, path) == s;
                lemma_closed_holds_generated::<G>(set@, cube@, path);
            }
            assert(set@ =~= generated::<G>(cube@));
        }
        (set, solutions)
    }

    /// The first `n` cubes that were put into the set.
    pub open spec fn first(&self, n: int) -> Set<CubieState> {
        Set::new(|t: CubieState| exists|k: int| 0 <= k < n && #[trigger] self.spec_cube(k)@ == t)
    }

    /// The first `n + 1` cubes are the first `n` and the cube after them, and the
    /// first cubes up to the count are the whole set.
    pub proof fn lemma_first(&self, n: int)
        ensures
            self.first(0) == Set::<CubieState>::empty(),
            0 <= n ==> self.first(n + 1) == self.first(n).insert(self.spec_cube(n)@),
            self.first(self.count() as int) == self@,
    {
        assert(self.first(0) =~= Set::<CubieState>::empty());
        if 0 <= n {
            assert forall|t: CubieState|
                self.first(n + 1).contains(t) <==> self.first(n).insert(
                    self.spec_cube(n)@,
                ).contains(t) by {
                if self.first(n + 1).contains(t) {
                    let k = choose|k: int| 0 <= k < n + 1 && #[trigger] self.spec_cube(k)@ == t;
                    if k < n {
                        assert(self.first(n).contains(t));
                    }
                }
                if self.first(n).contains(t) {
                    let k = choose|k: int| 0 <= k < n && #[trigger] self.spec_cube(k)@ == t;
                    assert(0 <= k < n + 1 && self.spec_cube(k)@ == t);
                }
                if t == self.spec_cube(n)@ {
                    assert(0 <= n < n + 1 && self.spec_cube(n)@ == t);
                }
            }
            assert(self.first(n + 1) =~= self.first(n).insert(self.spec_cube(n)@));
        }
        self.lemma_cubes();
        assert(self.first(self.count() as int) =~= self@);
    }

    /// Puts the cubes of `other` into the set.
    pub fn extend(&mut self, other: &GeneratorSet)
        requires
            old(self).wf(),
            other.wf(),
        ensures
            final(self).wf(),
            final(self)@ == old(self)@.union(other@),
    {
        let mut j: usize = 0;
        proof {
            other.lemma_first(0);
            assert(self@ =~= old(self)@.union(other.first(0)));
        }
        while j < other.len()
            invariant
                other.wf(),
                self.wf(),
                j <= other.count(),
                self@ == old(self)@.union(other.first(j as int)),
            decreases other.count() - j,
        {
            let added = other.cube(j);
            self.insert(added);
            proof {
                other.lemma_first(j as int);
                assert(self@ =~= old(self)@.union(other.first(j + 1)));
            }
            j += 1;
        }
        proof {
            other.lemma_first(0);
        }
    }

    /// The states that the moves of `G` lead to from the first `n` cubes of the set.
    pub open spec fn generated_by_first<G: MoveGenerator>(&self, n: int) -> Set<CubieState> {
        Set::new(
            |t: CubieState|
                exists|k: int| 0 <= k < n && #[trigger] generated::<G>(self.spec_cube(k)@).contains(t),
        )
    }

    /// The cubes that the moves of `G` lead to from the cubes of this set.
    pub fn product<G: MoveGenerator>(&self) -> (r: GeneratorSet)
        requires
            self.wf(),
        ensures
            r.wf(),
            forall|t: CubieState|
                r@.contains(t) <==> exists|s: CubieState|
                    self@.contains(s) && #[trigger] generated::<G>(s).contains(t),
    {
        let mut set = GeneratorSet::new();
        let mut i: usize = 0;
        proof {
            assert(set@ =~= self.generated_by_first::<G>(0));
        }
        while i < self.len()
            invariant
                self.wf(),
                set.wf(),
                i <= self.count(),
                set@ == self.generated_by_first::<G>(i as int),
            decreases self.count() - i,
        {
            let part = Self::from_generator_trait::<G>(self.cube(i));
            set.extend(&part);
            proof {
                assert forall|t: CubieState|
                    set@.contains(t) <==> self.generated_by_first::<G>(i + 1).contains(t) by {
                    if self.generated_by_first::<G>(i as int).contains(t) {
                        let k = choose|k: int|
                            0 <= k < i && #[trigger] generated::<G>(self.spec_cube(k)@).contains(t);
                        assert(0 <= k < i + 1 && generated::<G>(self.spec_cube(k)@).contains(t));
                    }
                    if part@.contains(t) {
                        assert(0 <= i < i + 1 && generated::<G>(
                            self.spec_cube(i as int)@,
                        ).contains(t));
                    }
                    if self.generated_by_first::<G>(i + 1).contains(t) {
                        let k = choose|k: int|
                            0 <= k < i + 1 && #[trigger] generated::<G>(
                                self.spec_cube(k)@,
                            ).contains(t);
                        if k < i {
                            assert(self.generated_by_first::<G>(i as int).contains(t));
                        }
                    }
                }
                assert(set@ =~= self.generated_by_first::<G>(i + 1));
            }
            i += 1;
        }
        proof {
            self.lemma_cubes();
            assert forall|t: CubieState|
                set@.contains(t) <==> exists|s: CubieState|
                    self@.contains(s) && #[trigger] generated::<G>(s).contains(t) by {
                if set@.contains(t) {
                    let k = choose|k: int|
                        0 <= k < i && #[trigger] generated::<G>(self.spec_cube(k)@).contains(t);
                    assert(self@.contains(self.spec_cube(k)@));
                    assert(generated::<G>(self.spec_cube(k)@).contains(t));
                }
                if exists|s: CubieState| self@.contains(s) && #[trigger] generated::<G>(s).contains(t) {
                    let s = choose|s: CubieState|
                        self@.contains(s) && #[trigger] generated::<G>(s).contains(t);
                    let k = choose|k: int| 0 <= k < self.count() && #[trigger] self.spec_cube(k)@ == s;
                    assert(generated::<G>(self.spec_cube(k)@).contains(t));
                }
            }
        }
        set
    }

    /// The solved cube and the cubes that the slice algorithms lead to from it.
    pub fn slice_set() -> (r: GeneratorSet)
        ensures
            r.wf(),
            r@ == slice_states(),
    {
        let mut set = GeneratorSet::new();
        set.insert(CubieCube::solved());
        let mut i: usize = 0;
        proof {
            assert(set@ =~= slice_states_below(0));
        }
        while i < 10
            invariant
                set.wf(),
                i <= 10,
                set@ == slice_states_below(i as int),
            decreases 10 - i,
        {
            proof {
                lemma_slice_algorithms();
            }
            let cube = follow(CubieCube::solved(), &SLICE_ALGORITHMS[i]);
            set.insert(cube);
            proof {
                lemma_slice_states_below(i as int);
            }
            i += 1;
        }
        proof {
            lemma_slice_algorithms();
        }
        let cube = follow(CubieCube::solved(), &LONG_SLICE_ALGORITHM);
        set.insert(cube);
        proof {
            assert(set@ =~= slice_states());
        }
        set
    }

    /// The set of the solved cube alone.
    pub fn solved_set() -> (r: GeneratorSet)
        ensures
            r.wf(),
            r@ == Set::<CubieState>::empty().insert(CubieState::solved()),
    {
        let mut r = GeneratorSet::new();
        r.insert(CubieCube::solved());
        r
    }
}

/// The slice algorithms of six moves, as indices of moves of the half turn metric.
pub const SLICE_ALGORITHMS: [[usize; 6]; 10] = [
    [6, 14, 3, 11, 2, 15],
    [14, 3, 11, 2, 15, 6],
    [6, 2, 15, 10, 14, 3],
    [2, 15, 10, 14, 3, 6],
    [7, 2, 15, 11, 14, 3],
    [2, 15, 11, 14, 3, 7],
    [7, 14, 3, 10, 2, 15],
    [14, 3, 10, 2, 15, 7],
    [7, 8, 9, 6, 8, 9],
    [10, 8, 9, 11, 8, 9],
];

/// The slice algorithm of eight moves, as indices of moves of the half turn metric.
pub const LONG_SLICE_ALGORITHM: [usize; 8] = [6, 10, 8, 9, 11, 8, 9, 6];

/// The indices of a path as numbers.
pub open spec fn indices(path: Seq<usize>) -> Seq<int> {
    Seq::new(path.len(), |i: int| path[i] as int)
}

/// The state that the `i`-th slice algorithm of six moves leads to from the solved
/// state.
pub open spec fn slice_state(i: int) -> CubieState {
    apply_path::<Generated<Htm>>(CubieState::solved(), indices(SLICE_ALGORITHMS[i]@))
}

/// The solved state and the states that the first `n` slice algorithms of six moves
/// lead to from it.
pub open spec fn slice_states_below(n: int) -> Set<CubieState> {
    Set::new(
        |t: CubieState|
            t == CubieState::solved() || exists|i: int| 0 <= i < n && #[trigger] slice_state(i) == t,
    )
}

/// The solved state and the states that the slice algorithms lead to from it.
pub open spec fn slice_states() -> Set<CubieState> {
    slice_states_below(10).insert(
        apply_path::<Generated<Htm>>(CubieState::solved(), indices(LONG_SLICE_ALGORITHM@)),
    )
}

/// The states of the first `n + 1` slice algorithms are those of the first `n` and
/// the state of the one after them.
pub proof fn lemma_slice_states_below(n: int)
    requires
        0 <= n,
    ensures
        slice_states_below(n + 1) == slice_states_below(n).insert(slice_state(n)),
{
    assert forall|t: CubieState|
        slice_states_below(n + 1).contains(t) <==> slice_states_below(n).insert(
            slice_state(n),
        ).contains(t) by {
        if slice_states_below(n + 1).contains(t) && t != CubieState::solved() {
            let i = choose|i: int| 0 <= i < n + 1 && #[trigger] slice_state(i) == t;
            if i < n {
                assert(slice_states_below(n).contains(t));
            }
        }
        if slice_states_below(n).contains(t) && t != CubieState::solved() {
            let i = choose|i: int| 0 <= i < n && #[trigger] slice_state(i) == t;
            assert(0 <= i < n + 1 && slice_state(i) == t);
        }
        if t == slice_state(n) {
            assert(0 <= n < n + 1 && slice_state(n) == t);
        }
    }
    assert(slice_states_below(n + 1) =~= slice_states_below(n).insert(slice_state(n)));
}

/// The slice algorithms hold indices of moves of the half turn metric.
pub proof fn lemma_slice_algorithms()
    ensures
        forall|i: int, k: int| 0 <= i < 10 && 0 <= k < 6 ==> #[trigger] SLICE_ALGORITHMS[i][k] < 18,
        forall|k: int| 0 <= k < 8 ==> #[trigger] LONG_SLICE_ALGORITHM[k] < 18,
{
}

/// The cube after the moves of the half turn metric with the given indices.
pub fn follow<const COUNT: usize>(cube: CubieCube, path: &[usize; COUNT]) -> (r: CubieCube)
    requires
        forall|k: int| 0 <= k < COUNT ==> #[trigger] path[k] < 18,
    ensures
        r@ == apply_path::<Generated<Htm>>(cube@, indices(path@)),
{
    let mut r = cube;
    let ghost all = indices(path@);
    for k in 0..COUNT
        invariant
            all == indices(path@),
            forall|m: int| 0 <= m < COUNT ==> #[trigger] path[m] < 18,
            r@ == apply_path::<Generated<Htm>>(cube@, all.take(k as int)),
    {
        proof {
            assert(all.take(k + 1).drop_last() =~= all.take(k as int));
            assert(all.take(k + 1).last() == path[k as int]);
        }
        r = r.make_move(Htm::move_at(path[k]));
    }
    assert(all.take(COUNT as int) =~= all);
    r
}

/// Whether the path of `n` moves of `G` leads from `s` into `set`.
pub open spec fn is_way<G: MoveGenerator>(
    s: CubieState,
    set: Set<CubieState>,
    path: Seq<int>,
    n: nat,
) -> bool {
    &&& path.len() == n
    &&& is_path::<Generated<G>>(path)
    &&& set.contains(apply_path::<Generated<G>>(s, path))
}

/// Whether `p` comes before `q`, or is `q`, in the order of the dictionary.
pub open spec fn lex_le(p: Seq<int>, q: Seq<int>) -> bool
    decreases p.len(),
{
    if p.len() == 0 || q.len() == 0 {
        true
    } else if p[0] != q[0] {
        p[0] < q[0]
    } else {
        lex_le(p.skip(1), q.skip(1))
    }
}

/// Whether `path` is the first way of its length from `s` into `set`, in the order
/// of the dictionary.
pub open spec fn is_first_way<G: MoveGenerator>(
    s: CubieState,
    set: Set<CubieState>,
    path: Seq<int>,
) -> bool {
    &&& is_way::<G>(s, set, path, path.len())
    &&& forall|q: Seq<int>| #[trigger] is_way::<G>(s, set, q, path.len()) ==> lex_le(path, q)
}

/// The moves of a path, last move first.
pub open spec fn reversed_moves<G: MoveGenerator>(path: Seq<int>) -> Seq<Move333> {
    Seq::new(path.len(), |i: int| G::moves()[path[path.len() - 1 - i]])
}

/// The moves of a path.
pub open spec fn moves_of<G: MoveGenerator>(path: Seq<int>) -> Seq<Move333> {
    Seq::new(path.len(), |i: int| G::moves()[path[i]])
}

/// A way of at least one move is a first move and a way from the state after it.
pub proof fn lemma_way_first<G: MoveGenerator>(
    s: CubieState,
    set: Set<CubieState>,
    path: Seq<int>,
    n: nat,
)
    requires
        n > 0,
        path.len() == n,
        is_path::<Generated<G>>(path),
    ensures
        0 <= path[0] < G::moves().len(),
        is_way::<G>(s, set, path, n) <==> is_way::<G>(
            s.make_move(G::moves()[path[0]]),
            set,
            path.skip(1),
            (n - 1) as nat,
        ),
{
    let rest = path.skip(1);
    assert(path =~= seq![path[0]] + rest);
    lemma_apply_path_first::<Generated<G>>(s, path[0], rest);
    assert forall|i: int| 0 <= i < rest.len() implies 0 <= #[trigger] rest[i] < G::moves().len() by {
        assert(rest[i] == path[i + 1]);
    }
}

/// Searches for a sequence of `depth` moves of `G` that leads from `cube` into
/// `set`. It finds the first such sequence in the order of the dictionary, by the
/// indices of the moves, and returns its moves last move first.
pub fn search<G: MoveGenerator>(cube: CubieCube, set: &GeneratorSet, depth: usize) -> (r: Option<
    Vec<Move333>,
>)
    requires
        set.wf(),
    ensures
        match r {
            Some(seq) => exists|path: Seq<int>|
                path.len() == depth && #[trigger] is_first_way::<G>(cube@, set@, path) && seq@
                    == reversed_moves::<G>(path),
            None => forall|path: Seq<int>| !#[trigger] is_way::<G>(cube@, set@, path, depth as nat),
        },
    decreases depth,
{
    if depth == 0 {
        if set.contains(&cube) {
            let seq: Vec<Move333> = Vec::new();
            proof {
                let path = Seq::<int>::empty();
                assert(is_path::<Generated<G>>(path));
                assert(apply_path::<Generated<G>>(cube@, path) == cube@);
                assert(is_first_way::<G>(cube@, set@, path));
                assert(seq@ =~= reversed_moves::<G>(path));
            }
            return Some(seq);
        }
        proof {
            assert forall|path: Seq<int>| !#[trigger] is_way::<G>(cube@, set@, path, 0) by {
                if path.len() == 0 {
                    assert(apply_path::<Generated<G>>(cube@, path) == cube@);
                }
            }
        }
        return None;
    }
    let n = G::size();
    let mut g: usize = 0;
    while g < n
        invariant
            set.wf(),
            depth > 0,
            n == G::moves().len(),
            g <= n,
            forall|q: Seq<int>| #[trigger] is_way::<G>(cube@, set@, q, depth as nat) ==> q[0] >= g,
        decreases n - g,
    {
        let mv = G::move_at(g);
        let new_cube = cube.make_move(mv);
        match search::<G>(new_cube, set, depth - 1) {
            Some(mut seq) => {
                let ghost rest = choose|rest: Seq<int>|
                    rest.len() == depth - 1 && #[trigger] is_first_way::<G>(new_cube@, set@, rest)
                        && seq@ == reversed_moves::<G>(rest);
                seq.push(mv);
                proof {
                    let path = seq![g as int] + rest;
                    assert(path.skip(1) =~= rest);
                    assert(is_path::<Generated<G>>(path)) by {
                        assert forall|i: int| 0 <= i < path.len() implies 0 <= #[trigger] path[i]
                            < G::moves().len() by {
                            if i > 0 {
                                assert(path[i] == rest[i - 1]);
                            }
                        }
                    }
                    lemma_way_first::<G>(cube@, set@, path, depth as nat);
                    assert forall|q: Seq<int>| #[trigger]
                        is_way::<G>(cube@, set@, q, path.len()) implies lex_le(path, q) by {
                        lemma_way_first::<G>(cube@, set@, q, depth as nat);
                        if q[0] == g {
                            assert(is_way::<G>(new_cube@, set@, q.skip(1), rest.len()));
                        }
                    }
                    assert(is_first_way::<G>(cube@, set@, path));
                    assert(seq@ =~= reversed_moves::<G>(path));
                }
                return Some(seq);
            },
            None => {
                proof {
                    assert forall|q: Seq<int>| #[trigger]
                        is_way::<G>(cube@, set@, q, depth as nat) implies q[0] >= g + 1 by {
                        lemma_way_first::<G>(cube@, set@, q, depth as nat);
                        if q[0] == g {
                            assert(is_way::<G>(new_cube@, set@, q.skip(1), (depth - 1) as nat));
                        }
                    }
                }
            },
        }
        g += 1;
    }
    proof {
        assert forall|path: Seq<int>| !#[trigger] is_way::<G>(cube@, set@, path, depth as nat) by {
            if is_way::<G>(cube@, set@, path, depth as nat) {
                assert(0 <= path[0] < G::moves().len());
            }
        }
    }
    None
}

/// Whether every path of moves of `G` that leads from `s` to `t` has `n` moves or
/// more.
pub open spec fn no_shorter_way<G: MoveGenerator>(s: CubieState, t: CubieState, n: nat) -> bool {
    forall|q: Seq<int>|
        is_path::<Generated<G>>(q) && #[trigger] apply_path::<Generated<G>>(s, q) == t ==> q.len()
            >= n
}

/// Whether every move of the sequence is a move of `G`.
pub open spec fn is_sequence_of<G: MoveGenerator>(moves: Seq<Move333>) -> bool {
    forall|k: int| 0 <= k < moves.len() ==> is_move_of::<G>(#[trigger] moves[k])
}

/// Whether the move is a move of `G`.
pub open spec fn is_move_of<G: MoveGenerator>(mv: Move333) -> bool {
    exists|g: int| 0 <= g < G::moves().len() && #[trigger] G::moves()[g] == mv
}

/// The moves followed by one more move.
pub fn extended(moves: &Vec<Move333>, mv: Move333) -> (r: Vec<Move333>)
    ensures
        r@ == moves@.push(mv),
{
    let mut r: Vec<Move333> = Vec::new();
    let mut i: usize = 0;
    while i < moves.len()
        invariant
            i <= moves.len(),
            r@ == moves@.take(i as int),
        decreases moves.len() - i,
    {
        r.push(moves[i]);
        proof {
            assert(r@ =~= moves@.take(i + 1));
        }
        i += 1;
    }
    r.push(mv);
    assert(r@ =~= moves@.push(mv));
    r
}

/// The moves in the opposite order.
pub fn reversed(moves: &Vec<Move333>) -> (r: Vec<Move333>)
    ensures
        r@ == moves@.reverse(),
{
    let mut r: Vec<Move333> = Vec::new();
    let mut i = moves.len();
    while i > 0
        invariant
            i <= moves.len(),
            r.len() == moves.len() - i,
            forall|k: int| 0 <= k < r.len() ==> r[k] == moves[moves.len() - 1 - k],
        decreases i,
    {
        i -= 1;
        r.push(moves[i]);
    }
    assert(r@ =~= moves@.reverse());
    r
}

/// The greatest number of moves that `solve` tries, and one more.
pub const SEARCH_DEPTH: usize = 32;

/// Searches for a shortest sequence of moves of `G` that leads from `cube` into
/// `set`, among the sequences of fewer than 32 moves. Of the shortest sequences it
/// finds the first in the order of the dictionary, by the indices of the moves.
pub fn solve<G: MoveGenerator>(cube: CubieCube, set: &GeneratorSet) -> (r: Option<Vec<Move333>>)
    requires
        set.wf(),
    ensures
        match r {
            Some(sol) => exists|path: Seq<int>|
                path.len() < SEARCH_DEPTH && #[trigger] is_first_way::<G>(cube@, set@, path) && sol@
                    == moves_of::<G>(path) && forall|q: Seq<int>, n: nat|
                    n < path.len() ==> !#[trigger] is_way::<G>(cube@, set@, q, n),
            None => forall|q: Seq<int>, n: nat|
                n < SEARCH_DEPTH ==> !#[trigger] is_way::<G>(cube@, set@, q, n),
        },
{
    let mut depth: usize = 0;
    while depth < SEARCH_DEPTH
        invariant
            set.wf(),
            depth <= SEARCH_DEPTH,
            forall|q: Seq<int>, n: nat| n < depth ==> !#[trigger] is_way::<G>(cube@, set@, q, n),
        decreases SEARCH_DEPTH - depth,
    {
        match search::<G>(cube, set, depth) {
            Some(seq) => {
                let sol = reversed(&seq);
                proof {
                    let path = choose|path: Seq<int>|
                        path.len() == depth && #[trigger] is_first_way::<G>(cube@, set@, path)
                            && seq@ == reversed_moves::<G>(path);
                    assert(sol@ =~= moves_of::<G>(path));
                }
                return Some(sol);
            },
            None => {},
        }
        depth += 1;
    }
    None
}

/// The states that the moves of `G` lead to from `s`.
pub open spec fn generated<G: MoveGenerator>(s: CubieState) -> Set<CubieState> {
    Set::new(
        |t: CubieState|
            exists|path: Seq<int>|
                is_path::<Generated<G>>(path) && apply_path::<Generated<G>>(s, path) == t,
    )
}

/// A state is generated from itself, by no move.
pub proof fn lemma_generated_start<G: MoveGenerator>(s: CubieState)
    ensures
        generated::<G>(s).contains(s),
{
    let path = Seq::<int>::empty();
    assert(is_path::<Generated<G>>(path));
    assert(apply_path::<Generated<G>>(s, path) == s);
}

/// A move of `G` leads from a generated state to a generated state.
pub proof fn lemma_generated_step<G: MoveGenerator>(s: CubieState, t: CubieState, g: int)
    requires
        generated::<G>(s).contains(t),
        0 <= g < G::moves().len(),
    ensures
        generated::<G>(s).contains(t.make_move(G::moves()[g])),
{
    let path = choose|path: Seq<int>|
        is_path::<Generated<G>>(path) && apply_path::<Generated<G>>(s, path) == t;
    let longer = path.push(g);
    assert(longer.drop_last() =~= path);
    assert(is_path::<Generated<G>>(longer));
    assert(apply_path::<Generated<G>>(s, longer) == t.make_move(G::moves()[g]));
}

/// A set that holds `s` and, with each state, the states that the moves of `G` lead
/// to from it, holds every state that the moves of `G` lead to from `s`.
pub proof fn lemma_closed_holds_generated<G: MoveGenerator>(
    set: Set<CubieState>,
    s: CubieState,
    path: Seq<int>,
)
    requires
        set.contains(s),
        is_path::<Generated<G>>(path),
        forall|t: CubieState, g: int|
            set.contains(t) && 0 <= g < G::moves().len() ==> set.contains(
                #[trigger] t.make_move(G::moves()[g]),
            ),
    ensures
        set.contains(apply_path::<Generated<G>>(s, path)),
    decreases path.len(),
{
    if path.len() > 0 {
        lemma_closed_holds_generated::<G>(set, s, path.drop_last());
        assert(0 <= path[path.len() - 1] < G::moves().len());
    }
}

} // verus!
