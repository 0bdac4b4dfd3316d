//! The coordinates of a cube: the ranks of its two orientation vectors and of its
//! two permutations.

use super::corner::CornerTwist;
use super::edge::EdgeFlip;
use super::moves::{
    lemma_quarter_turns_apart, lemma_quarter_turns_keep, Generated, MoveGenerator,
};
use super::{
    corner_twists_to_u8, corners_to_u8, digits, edge_flips_to_u8, edges_to_u8, u8_to_corner_twists,
    u8_to_corners, u8_to_edge_flips, u8_to_edges, CubieCube, CubieState,
};
use crate::generic::Coordinate;
use crate::ranking::orientation::{
    balancing_digit, digit_sum, digits_of, horner, in_range, lemma_balancing_digit,
    lemma_digits_of_len, lemma_horner_bound, lemma_orientation_rank_round_trip,
    lemma_orientation_round_trip, is_zero_sum, orientation_rank, orientation_unrank,
};
use crate::ranking::permutation::{
    count_greater, factorial, identity, is_arrangement_of, lehmer_digit,
    lemma_digit_bound, lemma_factorial_monotonic, lemma_factorial_positive, lemma_factorial_values,
    lemma_identity, lemma_permutation_round_trip, lemma_rank_bound, lemma_rank_round_trip,
    lemma_rank_sorted, lemma_unrank_arrangement, lemma_unrank_len, permutation_rank,
    permutation_unrank,
};
use vstd::arithmetic::div_mod::{
    lemma_div_denominator, lemma_fundamental_div_mod_converse, lemma_mod_add_multiples_vanish,
    lemma_small_mod,
};
use vstd::arithmetic::power::{lemma_pow_increases, pow};
use vstd::prelude::*;
use vstd::std_specs::convert::FromSpecImpl;
use vstd::string::StringExecFns;

verus! {

/// The number of corner orientation coordinates, 3^7.
pub const CO_ORDER: u16 = 2187;

/// The number of corner permutation coordinates, 8!.
pub const CP_ORDER: u16 = 40320;

/// The number of edge orientation coordinates, 2^11.
pub const EO_ORDER: u16 = 2048;

/// The number of edge permutation coordinates, 12!.
pub const EP_ORDER: u32 = 479001600;

/// The coordinate of the corner orientations: the rank of the orientation vector of
/// the corners, below 3^7.
#[derive(Debug, PartialEq, Eq, Copy, Clone, Structural)]
pub struct COCoord(u16);

/// The coordinate of the corner permutation: its rank, below 8!.
#[derive(Debug, PartialEq, Eq, Copy, Clone, Structural)]
pub struct CPCoord(u16);

/// The coordinate of the edge orientations: the rank of the orientation vector of
/// the edges, below 2^11.
#[derive(Debug, PartialEq, Eq, Copy, Clone, Structural)]
pub struct EOCoord(u16);

/// The coordinate of the edge permutation: its rank, below 12!.
#[derive(Debug, PartialEq, Eq, Copy, Clone, Structural)]
pub struct EPCoord(u32);

impl COCoord {
    /// Every coordinate is below the order.
    #[verifier::type_invariant]
    spec fn in_range(self) -> bool {
        self.0 < CO_ORDER
    }

    /// The coordinate as a number.
    pub closed spec fn value(self) -> int {
        self.0 as int
    }

    /// The coordinate with the given value, if there is one.
    pub fn new(value: u16) -> (r: Option<COCoord>)
        ensures
            r.is_some() <==> value < CO_ORDER,
            r matches Some(c) ==> c.value() == value,
    {
        if value < CO_ORDER {
            Some(COCoord(value))
        } else {
            None
        }
    }

    /// The coordinate as a number.
    pub fn get(self) -> (r: u16)
        ensures
            r == self.value(),
            r < CO_ORDER,
    {
        proof {
            use_type_invariant(self);
        }
        self.0
    }
}

impl CPCoord {
    /// Every coordinate is below the order.
    #[verifier::type_invariant]
    spec fn in_range(self) -> bool {
        self.0 < CP_ORDER
    }

    /// The coordinate as a number.
    pub closed spec fn value(self) -> int {
        self.0 as int
    }

    /// The coordinate with the given value, if there is one.
    pub fn new(value: u16) -> (r: Option<CPCoord>)
        ensures
            r.is_some() <==> value < CP_ORDER,
            r matches Some(c) ==> c.value() == value,
    {
        if value < CP_ORDER {
            Some(CPCoord(value))
        } else {
            None
        }
    }

    /// The coordinate as a number.
    pub fn get(self) -> (r: u16)
        ensures
            r == self.value(),
            r < CP_ORDER,
    {
        proof {
            use_type_invariant(self);
        }
        self.0
    }
}

impl EOCoord {
    /// Every coordinate is below the order.
    #[verifier::type_invariant]
    spec fn in_range(self) -> bool {
        self.0 < EO_ORDER
    }

    /// The coordinate as a number.
    pub closed spec fn value(self) -> int {
        self.0 as int
    }

    /// The coordinate with the given value, if there is one.
    pub fn new(value: u16) -> (r: Option<EOCoord>)
        ensures
            r.is_some() <==> value < EO_ORDER,
            r matches Some(c) ==> c.value() == value,
    {
        if value < EO_ORDER {
            Some(EOCoord(value))
        } else {
            None
        }
    }

    /// The coordinate as a number.
    pub fn get(self) -> (r: u16)
        ensures
            r == self.value(),
            r < EO_ORDER,
    {
        proof {
            use_type_invariant(self);
        }
        self.0
    }
}

impl EPCoord {
    /// Every coordinate is below the order.
    #[verifier::type_invariant]
    spec fn in_range(self) -> bool {
        self.0 < EP_ORDER
    }

    /// The coordinate as a number.
    pub closed spec fn value(self) -> int {
        self.0 as int
    }

    /// The coordinate with the given value, if there is one.
    pub fn new(value: u32) -> (r: Option<EPCoord>)
        ensures
            r.is_some() <==> value < EP_ORDER,
            r matches Some(c) ==> c.value() == value,
    {
        if value < EP_ORDER {
            Some(EPCoord(value))
        } else {
            None
        }
    }

    /// The coordinate as a number.
    pub fn get(self) -> (r: u32)
        ensures
            r == self.value(),
            r < EP_ORDER,
    {
        proof {
            use_type_invariant(self);
        }
        self.0
    }
}

impl Default for COCoord {
    fn default() -> (r: COCoord)
        ensures
            r.value() == 0,
    {
        COCoord(0)
    }
}

impl Default for CPCoord {
    fn default() -> (r: CPCoord)
        ensures
            r.value() == 0,
    {
        CPCoord(0)
    }
}

impl Default for EOCoord {
    fn default() -> (r: EOCoord)
        ensures
            r.value() == 0,
    {
        EOCoord(0)
    }
}

impl Default for EPCoord {
    fn default() -> (r: EPCoord)
        ensures
            r.value() == 0,
    {
        EPCoord(0)
    }
}

impl From<COCoord> for usize {
    fn from(coord: COCoord) -> (r: usize) {
        coord.0 as usize
    }
}

impl FromSpecImpl<COCoord> for usize {
    open spec fn obeys_from_spec() -> bool {
        true
    }

    open spec fn from_spec(coord: COCoord) -> usize {
        coord.value() as usize
    }
}

impl From<CPCoord> for usize {
    fn from(coord: CPCoord) -> (r: usize) {
        coord.0 as usize
    }
}

impl FromSpecImpl<CPCoord> for usize {
    open spec fn obeys_from_spec() -> bool {
        true
    }

    open spec fn from_spec(coord: CPCoord) -> usize {
        coord.value() as usize
    }
}

impl From<EOCoord> for usize {
    fn from(coord: EOCoord) -> (r: usize) {
        coord.0 as usize
    }
}

impl FromSpecImpl<EOCoord> for usize {
    open spec fn obeys_from_spec() -> bool {
        true
    }

    open spec fn from_spec(coord: EOCoord) -> usize {
        coord.value() as usize
    }
}

impl From<EPCoord> for usize {
    fn from(coord: EPCoord) -> (r: usize) {
        coord.0 as usize
    }
}

impl FromSpecImpl<EPCoord> for usize {
    open spec fn obeys_from_spec() -> bool {
        true
    }

    open spec fn from_spec(coord: EPCoord) -> usize {
        coord.value() as usize
    }
}

/// The four coordinates of a cube as plain numbers.
pub struct CoordState {
    /// The rank of the corner orientations
    pub co: int,
    /// The rank of the corner permutation
    pub cp: int,
    /// The rank of the edge orientations
    pub eo: int,
    /// The rank of the edge permutation
    pub ep: int,
}

impl CoordState {
    /// Whether each coordinate is below the number of values it can take.
    pub open spec fn in_range(self) -> bool {
        &&& 0 <= self.co < CO_ORDER
        &&& 0 <= self.cp < CP_ORDER
        &&& 0 <= self.eo < EO_ORDER
        &&& 0 <= self.ep < EP_ORDER
    }

    /// The coordinates of the solved cube.
    pub open spec fn solved() -> CoordState {
        CoordState { co: 0, cp: 0, eo: 0, ep: 0 }
    }

    /// The state of the pieces that has these coordinates and whose orientations add
    /// up to zero.
    pub open spec fn cubie(self) -> CubieState {
        CubieState {
            co: orientation_unrank(self.co, 8, 3),
            cp: permutation_unrank(identity(8), self.cp as nat),
            eo: orientation_unrank(self.eo, 12, 2),
            ep: permutation_unrank(identity(12), self.ep as nat),
        }
    }
}

impl CubieState {
    /// The coordinates of the state.
    pub open spec fn coordinates(self) -> CoordState {
        CoordState {
            co: orientation_rank(self.co, 3),
            cp: permutation_rank(self.cp) as int,
            eo: orientation_rank(self.eo, 2),
            ep: permutation_rank(self.ep) as int,
        }
    }
}

/// Implementation of a coord cube, representing pieces using coordinates, which are values which
/// are isomorphic to arrays represented in a cubie cube.
#[derive(Debug, PartialEq, Eq, Copy, Clone, Structural)]
pub struct CoordCube {
    /// Corner orientation
    pub co: COCoord,
    /// Corner permutation
    pub cp: CPCoord,
    /// Edge orientation
    pub eo: EOCoord,
    /// Edge permutation
    pub ep: EPCoord,
}

impl View for CoordCube {
    type V = CoordState;

    open spec fn view(&self) -> CoordState {
        CoordState {
            co: self.co.value(),
            cp: self.cp.value(),
            eo: self.eo.value(),
            ep: self.ep.value(),
        }
    }
}

impl CoordCube {
    /// The solved cube.
    pub fn solved() -> (r: CoordCube)
        ensures
            r@ == CoordState::solved(),
    {
        CoordCube { co: COCoord(0), cp: CPCoord(0), eo: EOCoord(0), ep: EPCoord(0) }
    }

    /// Convert a `CoordCube` to a `CubieCube`.
    pub fn to_cubie(self) -> (r: CubieCube)
        ensures
            r@ == self@.cubie(),
            r@.is_valid(),
            r@.co_parity() == 0,
            r@.eo_parity() == 0,
            r@.coordinates() == self@,
    {
        let co = from_o_coord::<8, 3>(self.co.get());
        let eo = from_o_coord::<12, 2>(self.eo.get());
        let cp = from_p_coord::<8>(self.cp.get() as u32);
        let ep = from_p_coord::<12>(self.ep.get());
        let r = CubieCube {
            co: u8_to_corner_twists(&co),
            cp: u8_to_corners(&cp),
            eo: u8_to_edge_flips(&eo),
            ep: u8_to_edges(&ep),
        };
        proof {
            assert(r@ =~= self@.cubie());
            lemma_coord_round_trip(self@);
        }
        r
    }
}

/// Error for when converting from a `CubieCube` to a `CoordCube`.
/// Errors can occur in this case when the `CubieCube` is in an illegal state caused by an edge
/// flip, a corner twist, or permutation parity.
#[derive(Debug, PartialEq, Eq, Copy, Clone, Structural)]
pub struct CubieToCoordError {
    /// The edge flip coset we are in.
    pub eo: EdgeFlip,
    /// The corner twist coset we are in.
    pub co: CornerTwist,
    /// Whether we have permutation parity or not.
    pub perm: bool,
}

impl CubieToCoordError {
    /// What the error says: one line for each invariant that is broken.
    pub open spec fn spec_to_string(self) -> Seq<char> {
        (if self.eo == EdgeFlip::Flipped {
            "This cube has a flipped edge!\n"@
        } else {
            Seq::<char>::empty()
        }) + (if self.co == CornerTwist::Clockwise {
            "This cube has a clockwise twisted corner!\n"@
        } else {
            Seq::<char>::empty()
        }) + (if self.co == CornerTwist::AntiClockwise {
            "This cube has an anticlockwise twisted corner!\n"@
        } else {
            Seq::<char>::empty()
        }) + (if self.perm {
            "This cube has permutation parity!\n"@
        } else {
            Seq::<char>::empty()
        })
    }

    /// What the error says: one line for each invariant that is broken.
    pub fn to_string(&self) -> (r: String)
        ensures
            r@ == self.spec_to_string(),
    {
        let mut r = String::new();
        if self.eo == EdgeFlip::Flipped {
            r.append("This cube has a flipped edge!\n");
        }
        let ghost first = r@;
        if self.co == CornerTwist::Clockwise {
            r.append("This cube has a clockwise twisted corner!\n");
        }
        let ghost second = r@;
        if self.co == CornerTwist::AntiClockwise {
            r.append("This cube has an anticlockwise twisted corner!\n");
        }
        let ghost third = r@;
        if self.perm {
            r.append("This cube has permutation parity!\n");
        }
        proof {
            let none = Seq::<char>::empty();
            assert(none + none =~= none);
            assert(forall|s: Seq<char>| #[trigger] (s + none) =~= s);
            assert(forall|s: Seq<char>| #[trigger] (none + s) =~= s);
        }
        r
    }
}

impl CubieCube {
    /// Tries to convert a `CubieCube` to a `CoordCube`. This succeeds on the states that
    /// are legal; on any other the error says which of the three invariants are broken.
    pub fn to_coord(&self) -> (r: Result<CoordCube, CubieToCoordError>)
        requires
            self@.is_valid(),
        ensures
            r.is_ok() <==> self@.is_legal(),
            r matches Ok(c) ==> c@ == self@.coordinates() && c@.cubie() == self@,
            r matches Err(e) ==> e.eo.index() == self@.eo_parity() && e.co.index()
                == self@.co_parity() && e.perm == self@.perm_parity(),
    {
        if self.illegal() {
            return Err(
                CubieToCoordError {
                    eo: self.eo_parity(),
                    co: self.co_parity(),
                    perm: self.perm_parity(),
                },
            );
        }
        proof {
            lemma_powers();
            lemma_factorial_values();
            lemma_cubie_round_trip(self@);
        }
        let co = COCoord(to_o_coord::<8, 3>(&corner_twists_to_u8(&self.co)));
        let cp = CPCoord(to_p_coord::<8>(&corners_to_u8(&self.cp)) as u16);
        let eo = EOCoord(to_o_coord::<12, 2>(&edge_flips_to_u8(&self.eo)));
        let ep = EPCoord(to_p_coord::<12>(&edges_to_u8(&self.ep)));
        Ok(CoordCube { co, cp, eo, ep })
    }
}

/// The coordinates of any state are in range, and those of the solved cube are all
/// zero.
pub proof fn lemma_coordinates_in_range(s: CubieState)
    requires
        s.well_formed(),
    ensures
        s.coordinates().in_range(),
        CubieState::solved().coordinates() == CoordState::solved(),
{
    reveal_with_fuel(pow, 12);
    assert(pow(3, 7) == 2187);
    assert(pow(2, 11) == 2048);
    lemma_factorial_values();
    lemma_horner_bound(s.co.drop_last(), 3);
    lemma_horner_bound(s.eo.drop_last(), 2);
    lemma_rank_bound(s.cp);
    lemma_rank_bound(s.ep);
    let solved = CubieState::solved();
    lemma_identity(8, solved.cp);
    lemma_identity(12, solved.ep);
    lemma_rank_sorted(solved.cp);
    lemma_rank_sorted(solved.ep);
    lemma_horner_zero(solved.co.drop_last(), 3);
    lemma_horner_zero(solved.eo.drop_last(), 2);
}

/// Digits that are all zero spell zero.
pub proof fn lemma_horner_zero(v: Seq<int>, base: int)
    requires
        forall|i: int| 0 <= i < v.len() ==> v[i] == 0,
    ensures
        horner(v, base) == 0,
        digit_sum(v) == 0,
    decreases v.len(),
{
    if v.len() > 0 {
        lemma_horner_zero(v.drop_last(), base);
    }
}

/// Converting a legal state to coordinates and back gives the state again.
pub proof fn lemma_cubie_round_trip(s: CubieState)
    requires
        s.is_legal(),
    ensures
        s.coordinates().in_range(),
        s.coordinates().cubie() == s,
{
    lemma_coordinates_in_range(s);
    lemma_orientation_round_trip(s.co, 3);
    lemma_orientation_round_trip(s.eo, 2);
    lemma_permutation_round_trip(s.cp);
    lemma_permutation_round_trip(s.ep);
}

/// Converting coordinates in range to a state and back gives the coordinates again.
/// The state is that of a cube put together from all its pieces, with orientations
/// that add up to zero.
pub proof fn lemma_coord_round_trip(c: CoordState)
    requires
        c.in_range(),
    ensures
        c.cubie().is_valid(),
        c.cubie().co_parity() == 0,
        c.cubie().eo_parity() == 0,
        c.cubie().coordinates() == c,
{
    reveal_with_fuel(pow, 12);
    assert(pow(3, 7) == 2187);
    assert(pow(2, 11) == 2048);
    lemma_factorial_values();
    lemma_orientation_rank_round_trip(c.co, 8, 3);
    lemma_orientation_rank_round_trip(c.eo, 12, 2);
    lemma_rank_round_trip(8, c.cp as nat);
    lemma_rank_round_trip(12, c.ep as nat);
}

/// The solved coordinates are those of the solved cube, and the other way round.
pub proof fn lemma_solved()
    ensures
        CubieState::solved().is_legal(),
        CubieState::solved().coordinates() == CoordState::solved(),
        CoordState::solved().cubie() == CubieState::solved(),
{
    let solved = CubieState::solved();
    lemma_identity(8, solved.cp);
    lemma_identity(12, solved.ep);
    lemma_horner_zero(solved.co, 3);
    lemma_horner_zero(solved.eo, 2);
    crate::ranking::parity::lemma_inversions_sorted(solved.cp);
    crate::ranking::parity::lemma_inversions_sorted(solved.ep);
    lemma_coordinates_in_range(solved);
    lemma_cubie_round_trip(solved);
}

/// The rank of an orientation vector over `STATES` residues: the number that all
/// digits of `arr` but the last spell in base `STATES`.
pub fn to_o_coord<const COUNT: usize, const STATES: u16>(arr: &[u8; COUNT]) -> (r: u16)
    requires
        COUNT >= 1,
        in_range(digits(arr@), STATES as int),
        pow(STATES as int, (COUNT - 1) as nat) <= 0x10000,
    ensures
        r == orientation_rank(digits(arr@), STATES as int),
        r < pow(STATES as int, (COUNT - 1) as nat),
{
    let ghost v = digits(arr@);
    let ghost base = STATES as int;
    let mut acc: u16 = 0;
    let mut i: usize = 0;
    assert(base >= 1) by {
        assert(0 <= v[0] < base);
    }
    while i < COUNT - 1
        invariant
            COUNT >= 1,
            i <= COUNT - 1,
            v == digits(arr@),
            base == STATES as int,
            base >= 1,
            in_range(v, base),
            pow(base, (COUNT - 1) as nat) <= 0x10000,
            acc == horner(v.take(i as int), base),
        decreases COUNT - 1 - i,
    {
        proof {
            let next = v.take(i + 1);
            assert(next.drop_last() =~= v.take(i as int));
            assert(next.last() == arr[i as int]);
            lemma_horner_bound(next, base);
            lemma_pow_increases(base as nat, (i + 1) as nat, (COUNT - 1) as nat);
            assert(0 <= acc * base <= horner(next, base)) by (nonlinear_arith)
                requires
                    horner(next, base) == acc * base + arr[i as int],
                    acc >= 0,
                    base >= 1,
            ;
        }
        acc = acc * STATES + arr[i] as u16;
        i += 1;
    }
    proof {
        assert(v.take(COUNT - 1) =~= v.drop_last());
        lemma_horner_bound(v.drop_last(), base);
    }
    acc
}

/// The zero-sum orientation vector of `COUNT` digits over `STATES` residues that
/// has the given rank.
pub fn from_o_coord<const COUNT: usize, const STATES: u16>(coord: u16) -> (r: [u8; COUNT])
    requires
        COUNT >= 1,
        1 <= STATES <= 256,
    ensures
        digits(r@) == orientation_unrank(coord as int, COUNT as nat, STATES as int),
        in_range(digits(r@), STATES as int),
{
    let ghost base = STATES as int;
    let ghost n = (COUNT - 1) as nat;
    let ghost all = digits_of(coord as int, n, base);
    let mut out = [0u8;COUNT];
    let mut rest = coord;
    let mut sum: u16 = 0;
    let mut i: usize = COUNT - 1;
    proof {
        lemma_digits_of_len(coord as int, n, base);
        lemma_small_mod(0, base as nat);
    }
    while i > 0
        invariant
            COUNT >= 1,
            1 <= STATES <= 256,
            base == STATES as int,
            n == COUNT - 1,
            i <= n,
            all == digits_of(coord as int, n, base),
            all.len() == n,
            all =~= digits_of(rest as int, i as nat, base) + digits(out@).subrange(i as int, n as int),
            0 <= sum < base,
            (sum + digit_sum(all) - digit_sum(digits_of(rest as int, i as nat, base))) % base == 0,
        decreases i,
    {
        let digit = rest % STATES;
        proof {
            let s = digit_sum(all) - digit_sum(digits_of(rest as int, i as nat, base));
            let shorter = digits_of(rest as int / base, (i - 1) as nat, base);
            assert(digits_of(rest as int, i as nat, base) == shorter.push(rest as int % base));
            assert(shorter.push(rest as int % base).drop_last() =~= shorter);
            lemma_running_sum(sum as int, digit as int, s, base);
        }
        let ghost before = digits(out@);
        out[i - 1] = digit as u8;
        sum = (sum + STATES - digit) % STATES;
        rest = rest / STATES;
        i -= 1;
        proof {
            let shorter = digits_of(rest as int, i as nat, base);
            assert(digits(out@).subrange(i as int, n as int) =~= seq![digit as int]
                + before.subrange(i + 1, n as int));
            assert(all =~= shorter + digits(out@).subrange(i as int, n as int));
        }
    }
    proof {
        assert(digits_of(rest as int, 0, base) =~= Seq::<int>::empty());
        assert(all =~= digits(out@).subrange(0, n as int));
        assert(all.push(sum as int).drop_last() =~= all);
        lemma_balancing_digit(all, base, sum as int);
    }
    out[COUNT - 1] = sum as u8;
    proof {
        assert(digits(out@) =~= all.push(balancing_digit(all, base)));
        lemma_balancing_digit(all, base, 0);
    }
    out
}

/// Replacing the running sum `sum` by `(sum + base - digit) % base` takes `digit`
/// off it, modulo the base.
proof fn lemma_running_sum(sum: int, digit: int, s: int, base: int)
    requires
        base >= 1,
        0 <= sum < base,
        0 <= digit < base,
        (sum + s) % base == 0,
    ensures
        0 <= (sum + base - digit) % base < base,
        ((sum + base - digit) % base + s + digit) % base == 0,
{
    let x = sum + base - digit;
    if x < base {
        lemma_small_mod(x as nat, base as nat);
        lemma_mod_add_multiples_vanish(sum + s, base);
    } else {
        lemma_fundamental_div_mod_converse(x, base, 1, x - base);
    }
}

/// The rank of a sequence among the arrangements of its elements: for each
/// position `i`, the number of earlier elements greater than `arr[i]`, taken `i!`
/// times.
pub fn to_p_coord<const COUNT: usize>(arr: &[u8; COUNT]) -> (r: u32)
    requires
        COUNT <= 12,
    ensures
        r == permutation_rank(digits(arr@)),
        r < factorial(COUNT as nat),
{
    let ghost p = digits(arr@);
    let mut acc: u32 = 0;
    let mut m: usize = COUNT;
    proof {
        assert(p.take(COUNT as int) =~= p);
        lemma_rank_bound(p);
        lemma_factorial_values();
        lemma_factorial_monotonic(COUNT as nat, 12);
    }
    while m > 1
        invariant
            m <= COUNT <= 12,
            p == digits(arr@),
            permutation_rank(p) < 479001600,
            permutation_rank(p) < factorial(COUNT as nat),
            permutation_rank(p.take(m as int)) + factorial(m as nat) * acc == permutation_rank(p),
        decreases m,
    {
        let idx = m - 1;
        let mut count: u32 = 0;
        let mut j: usize = 0;
        while j < idx
            invariant
                j <= idx < COUNT <= 12,
                p == digits(arr@),
                count == count_greater(p.take(j as int), arr[idx as int] as int),
                count <= j,
            decreases idx - j,
        {
            proof {
                assert(p.take(j + 1).drop_last() =~= p.take(j as int));
                assert(p.take(j + 1).last() == arr[j as int]);
            }
            if arr[j] > arr[idx] {
                count += 1;
            }
            j += 1;
        }
        proof {
            let f = factorial(idx as nat);
            lemma_factorial_positive(idx as nat);
            assert(p.take(m as int).drop_last() =~= p.take(idx as int));
            assert(p.take(m as int).last() == arr[idx as int]);
            assert(permutation_rank(p.take(m as int)) == count * f + permutation_rank(
                p.take(idx as int),
            ));
            assert(factorial(m as nat) == m * f);
            assert(permutation_rank(p.take(idx as int)) + f * (acc * m + count) == permutation_rank(
                p,
            )) by (nonlinear_arith)
                requires
                    permutation_rank(p.take(idx as int)) + count * f + (m * f) * acc
                        == permutation_rank(p),
            ;
            assert(acc * m + count <= permutation_rank(p)) by (nonlinear_arith)
                requires
                    f * (acc * m + count) <= permutation_rank(p),
                    f >= 1,
                    acc * m + count >= 0,
            ;
            assert(0 <= acc * m <= acc * m + count) by (nonlinear_arith)
                requires
                    acc >= 0,
                    m >= 0,
                    count >= 0,
            ;
        }
        acc = acc * (m as u32) + count;
        m = idx;
    }
    proof {
        lemma_factorial_values();
        let q = p.take(m as int);
        if m == 1 {
            assert(q.drop_last().len() == 0);
            assert(count_greater(q.drop_last(), q.last()) == 0);
            assert(permutation_rank(q.drop_last()) == 0);
            assert(permutation_rank(q) == 0 * factorial(0) + 0);
        }
        assert(permutation_rank(q) == 0);
        assert(factorial(m as nat) == 1);
        assert(factorial(m as nat) * acc == acc) by (nonlinear_arith)
            requires
                factorial(m as nat) == 1,
        ;
    }
    acc
}

/// The arrangement of 0, 1, .., `COUNT` - 1 that has the given rank.
pub fn from_p_coord<const COUNT: usize>(coord: u32) -> (r: [u8; COUNT])
    requires
        COUNT <= 256,
    ensures
        digits(r@) == permutation_unrank(identity(COUNT as nat), coord as nat),
        is_arrangement_of(digits(r@), identity(COUNT as nat)),
        in_range(digits(r@), COUNT as int),
{
    let ghost rank = coord as nat;
    let mut orders: Vec<u32> = Vec::new();
    orders.push(0);
    let mut rest = coord;
    let mut i: usize = 1;
    proof {
        lemma_factorial_values();
        assert(lehmer_digit(rank, 0) == 0);
    }
    while i < COUNT
        invariant
            1 <= i,
            COUNT <= 256,
            i <= COUNT || i == 1,
            rank == coord,
            orders.len() == i,
            rest == rank / factorial(i as nat),
            forall|k: int| 0 <= k < i ==> orders[k] == lehmer_digit(rank, k as nat),
        decreases COUNT - i,
    {
        let n = rest % (i as u32 + 1);
        orders.push(n);
        proof {
            lemma_factorial_positive(i as nat);
            lemma_div_denominator(rank as int, factorial(i as nat) as int, i + 1);
            assert(factorial((i + 1) as nat) == (i + 1) * factorial(i as nat));
            assert((i + 1) * factorial(i as nat) == factorial(i as nat) * (i + 1))
                by (nonlinear_arith);
        }
        rest = rest / (i as u32 + 1);
        i += 1;
    }
    let mut pool: Vec<u8> = Vec::new();
    let mut v: usize = 0;
    while v < COUNT
        invariant
            v <= COUNT <= 256,
            pool.len() == v,
            forall|k: int| 0 <= k < v ==> pool[k] == k,
        decreases COUNT - v,
    {
        pool.push(v as u8);
        v += 1;
    }
    let ghost full = identity(COUNT as nat);
    let ghost target = permutation_unrank(full, rank);
    let mut out = [0u8;COUNT];
    let mut i: usize = COUNT;
    proof {
        assert(digits(pool@) =~= full);
        assert(digits(out@).subrange(COUNT as int, COUNT as int) =~= Seq::<int>::empty());
        assert(permutation_unrank(digits(pool@), rank) + Seq::<int>::empty()
            =~= permutation_unrank(digits(pool@), rank));
    }
    while i > 0
        invariant
            i <= COUNT <= 256,
            pool.len() == i,
            rank == coord,
            orders.len() >= COUNT,
            forall|k: int| 0 <= k < COUNT ==> orders[k] == lehmer_digit(rank, k as nat),
            target == permutation_unrank(digits(pool@), rank) + digits(out@).subrange(
                i as int,
                COUNT as int,
            ),
        decreases i,
    {
        let ghost before_pool = digits(pool@);
        let ghost before_out = digits(out@);
        i -= 1;
        proof {
            lemma_digit_bound(rank, i as nat);
        }
        let j = i - orders[i] as usize;
        out[i] = pool[j];
        pool.remove(j);
        proof {
            assert(digits(pool@) =~= before_pool.remove(j as int));
            assert(permutation_unrank(before_pool, rank) == permutation_unrank(
                before_pool.remove(j as int),
                rank,
            ).push(before_pool[j as int]));
            lemma_unrank_len(digits(pool@), rank);
            assert(digits(out@).subrange(i as int, COUNT as int) =~= seq![before_pool[j as int]]
                + before_out.subrange(i + 1, COUNT as int));
            assert(target =~= permutation_unrank(digits(pool@), rank) + digits(out@).subrange(
                i as int,
                COUNT as int,
            ));
        }
    }
    proof {
        assert(digits(pool@) =~= Seq::<int>::empty());
        assert(target =~= digits(out@));
        lemma_identity(COUNT as nat, target);
        lemma_unrank_arrangement(full, rank);
        lemma_unrank_len(full, rank);
    }
    out
}

impl CubieState {
    /// The solved state with the corner orientations replaced.
    pub open spec fn solved_with_co(co: Seq<int>) -> CubieState {
        CubieState { co, ..CubieState::solved() }
    }

    /// The solved state with the corner permutation replaced.
    pub open spec fn solved_with_cp(cp: Seq<int>) -> CubieState {
        CubieState { cp, ..CubieState::solved() }
    }

    /// The solved state with the edge orientations replaced.
    pub open spec fn solved_with_eo(eo: Seq<int>) -> CubieState {
        CubieState { eo, ..CubieState::solved() }
    }

    /// The solved state with the edge permutation replaced.
    pub open spec fn solved_with_ep(ep: Seq<int>) -> CubieState {
        CubieState { ep, ..CubieState::solved() }
    }
}

/// The solved state has a piece and an orientation for each slot, every piece in
/// its own slot and every orientation zero.
pub proof fn lemma_solved_state()
    ensures
        CubieState::solved().is_valid(),
        is_zero_sum(CubieState::solved().co, 3),
        is_zero_sum(CubieState::solved().eo, 2),
        orientation_rank(CubieState::solved().co, 3) == 0,
        orientation_rank(CubieState::solved().eo, 2) == 0,
        permutation_rank(CubieState::solved().cp) == 0,
        permutation_rank(CubieState::solved().ep) == 0,
{
    lemma_solved();
}

impl<G: MoveGenerator> Coordinate<Generated<G>> for COCoord {
    open spec fn order() -> nat {
        CO_ORDER as nat
    }

    open spec fn index(self) -> nat {
        self.value() as nat
    }

    open spec fn of_state(s: CubieState) -> nat {
        orientation_rank(s.co, 3) as nat
    }

    open spec fn element(i: nat) -> CubieState {
        CubieState::solved_with_co(orientation_unrank(i as int, 8, 3))
    }

    open spec fn respects(s: CubieState) -> bool {
        s.well_formed() && is_zero_sum(s.co, 3)
    }

    fn size() -> (n: usize) {
        CO_ORDER as usize
    }

    fn to_index(self) -> (i: usize) {
        self.get() as usize
    }

    fn from_puzzle(puzzle: &Generated<G>) -> (c: COCoord) {
        proof {
            puzzle.cube.lemma_well_formed();
            lemma_coordinates_in_range(puzzle.cube@);
            lemma_powers();
        }
        COCoord(to_o_coord::<8, 3>(&corner_twists_to_u8(&puzzle.cube.co)))
    }

    fn to_puzzle(self) -> (p: Generated<G>) {
        let solved = CubieCube::solved();
        let p = CubieCube {
            co: u8_to_corner_twists(&from_o_coord::<8, 3>(self.get())),
            cp: solved.cp,
            eo: solved.eo,
            ep: solved.ep,
        };
        assert(p@ =~= <Self as Coordinate<Generated<G>>>::element(
            <Self as Coordinate<Generated<G>>>::index(self),
        ));
        Generated::new(p)
    }

    fn solved(&self) -> (r: bool) {
        proof {
            lemma_solved_state();
        }
        self.get() == 0
    }

    proof fn lemma_element(i: nat) {
        lemma_powers();
        lemma_solved_state();
        lemma_orientation_rank_round_trip(i as int, 8, 3);
    }

    proof fn lemma_compatible(s: CubieState, g: int) {
        let mv = G::moves()[g];
        let e = <Self as Coordinate<Generated<G>>>::element(
            <Self as Coordinate<Generated<G>>>::of_state(s),
        );
        lemma_coordinates_in_range(s);
        lemma_orientation_round_trip(s.co, 3);
        lemma_quarter_turns_keep(s, mv.ty, mv.count as nat);
        lemma_quarter_turns_apart(s, e, mv.ty, mv.count as nat);
    }
}

impl<G: MoveGenerator> Coordinate<Generated<G>> for EOCoord {
    open spec fn order() -> nat {
        EO_ORDER as nat
    }

    open spec fn index(self) -> nat {
        self.value() as nat
    }

    open spec fn of_state(s: CubieState) -> nat {
        orientation_rank(s.eo, 2) as nat
    }

    open spec fn element(i: nat) -> CubieState {
        CubieState::solved_with_eo(orientation_unrank(i as int, 12, 2))
    }

    open spec fn respects(s: CubieState) -> bool {
        s.well_formed() && is_zero_sum(s.eo, 2)
    }

    fn size() -> (n: usize) {
        EO_ORDER as usize
    }

    fn to_index(self) -> (i: usize) {
        self.get() as usize
    }

    fn from_puzzle(puzzle: &Generated<G>) -> (c: EOCoord) {
        proof {
            puzzle.cube.lemma_well_formed();
            lemma_coordinates_in_range(puzzle.cube@);
            lemma_powers();
        }
        EOCoord(to_o_coord::<12, 2>(&edge_flips_to_u8(&puzzle.cube.eo)))
    }

    fn to_puzzle(self) -> (p: Generated<G>) {
        let solved = CubieCube::solved();
        let p = CubieCube {
            co: solved.co,
            cp: solved.cp,
            eo: u8_to_edge_flips(&from_o_coord::<12, 2>(self.get())),
            ep: solved.ep,
        };
        assert(p@ =~= <Self as Coordinate<Generated<G>>>::element(
            <Self as Coordinate<Generated<G>>>::index(self),
        ));
        Generated::new(p)
    }

    fn solved(&self) -> (r: bool) {
        proof {
            lemma_solved_state();
        }
        self.get() == 0
    }

    proof fn lemma_element(i: nat) {
        lemma_powers();
        lemma_solved_state();
        lemma_orientation_rank_round_trip(i as int, 12, 2);
    }

    proof fn lemma_compatible(s: CubieState, g: int) {
        let mv = G::moves()[g];
        let e = <Self as Coordinate<Generated<G>>>::element(
            <Self as Coordinate<Generated<G>>>::of_state(s),
        );
        lemma_coordinates_in_range(s);
        lemma_orientation_round_trip(s.eo, 2);
        lemma_quarter_turns_keep(s, mv.ty, mv.count as nat);
        lemma_quarter_turns_apart(s, e, mv.ty, mv.count as nat);
    }
}

impl<G: MoveGenerator> Coordinate<Generated<G>> for CPCoord {
    open spec fn order() -> nat {
        CP_ORDER as nat
    }

    open spec fn index(self) -> nat {
        self.value() as nat
    }

    open spec fn of_state(s: CubieState) -> nat {
        permutation_rank(s.cp)
    }

    open spec fn element(i: nat) -> CubieState {
        CubieState::solved_with_cp(permutation_unrank(identity(8), i))
    }

    open spec fn respects(s: CubieState) -> bool {
        s.well_formed() && s.cp.no_duplicates()
    }

    fn size() -> (n: usize) {
        CP_ORDER as usize
    }

    fn to_index(self) -> (i: usize) {
        self.get() as usize
    }

    fn from_puzzle(puzzle: &Generated<G>) -> (c: CPCoord) {
        proof {
            lemma_factorial_values();
        }
        CPCoord(to_p_coord::<8>(&corners_to_u8(&puzzle.cube.cp)) as u16)
    }

    fn to_puzzle(self) -> (p: Generated<G>) {
        let solved = CubieCube::solved();
        let p = CubieCube {
            co: solved.co,
            cp: u8_to_corners(&from_p_coord::<8>(self.get() as u32)),
            eo: solved.eo,
            ep: solved.ep,
        };
        assert(p@ =~= <Self as Coordinate<Generated<G>>>::element(
            <Self as Coordinate<Generated<G>>>::index(self),
        ));
        Generated::new(p)
    }

    fn solved(&self) -> (r: bool) {
        proof {
            lemma_solved_state();
        }
        self.get() == 0
    }

    proof fn lemma_element(i: nat) {
        lemma_factorial_values();
        lemma_solved_state();
        lemma_rank_round_trip(8, i);
    }

    proof fn lemma_compatible(s: CubieState, g: int) {
        let mv = G::moves()[g];
        let e = <Self as Coordinate<Generated<G>>>::element(
            <Self as Coordinate<Generated<G>>>::of_state(s),
        );
        lemma_coordinates_in_range(s);
        lemma_permutation_round_trip(s.cp);
        lemma_quarter_turns_keep(s, mv.ty, mv.count as nat);
        lemma_quarter_turns_apart(s, e, mv.ty, mv.count as nat);
    }
}

impl<G: MoveGenerator> Coordinate<Generated<G>> for EPCoord {
    open spec fn order() -> nat {
        EP_ORDER as nat
    }

    open spec fn index(self) -> nat {
        self.value() as nat
    }

    open spec fn of_state(s: CubieState) -> nat {
        permutation_rank(s.ep)
    }

    open spec fn element(i: nat) -> CubieState {
        CubieState::solved_with_ep(permutation_unrank(identity(12), i))
    }

    open spec fn respects(s: CubieState) -> bool {
        s.well_formed() && s.ep.no_duplicates()
    }

    fn size() -> (n: usize) {
        EP_ORDER as usize
    }

    fn to_index(self) -> (i: usize) {
        self.get() as usize
    }

    fn from_puzzle(puzzle: &Generated<G>) -> (c: EPCoord) {
        proof {
            lemma_factorial_values();
        }
        EPCoord(to_p_coord::<12>(&edges_to_u8(&puzzle.cube.ep)))
    }

    fn to_puzzle(self) -> (p: Generated<G>) {
        let solved = CubieCube::solved();
        let p = CubieCube {
            co: solved.co,
            cp: solved.cp,
            eo: solved.eo,
            ep: u8_to_edges(&from_p_coord::<12>(self.get())),
        };
        assert(p@ =~= <Self as Coordinate<Generated<G>>>::element(
            <Self as Coordinate<Generated<G>>>::index(self),
        ));
        Generated::new(p)
    }

    fn solved(&self) -> (r: bool) {
        proof {
            lemma_solved_state();
        }
        self.get() == 0
    }

    proof fn lemma_element(i: nat) {
        lemma_factorial_values();
        lemma_solved_state();
        lemma_rank_round_trip(12, i);
    }

    proof fn lemma_compatible(s: CubieState, g: int) {
        let mv = G::moves()[g];
        let e = <Self as Coordinate<Generated<G>>>::element(
            <Self as Coordinate<Generated<G>>>::of_state(s),
        );
        lemma_coordinates_in_range(s);
        lemma_permutation_round_trip(s.ep);
        lemma_quarter_turns_keep(s, mv.ty, mv.count as nat);
        lemma_quarter_turns_apart(s, e, mv.ty, mv.count as nat);
    }
}

/// The powers that bound the orientation coordinates.
pub proof fn lemma_powers()
    ensures
        pow(3, 7) == 2187,
        pow(2, 11) == 2048,
{
    reveal_with_fuel(pow, 12);
}

} // verus!
