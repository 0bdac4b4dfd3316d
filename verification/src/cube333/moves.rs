//! The moves of the cube and how they act on a cubie cube.

use super::{
    corner_twists_to_u8, corners_to_u8, digits, edge_flips_to_u8, edges_to_u8, u8_to_corner_twists,
    u8_to_corners, u8_to_edge_flips, u8_to_edges, CubieCube, CubieState,
};
use crate::generic::GroupPuzzle;
use crate::moves::{inverse_sequence, Cancellation, Move};
use crate::ranking::orientation::{
    digit_sum, in_range, lemma_digit_sum_shifted, lemma_digit_sum_update,
};
use crate::ranking::parity::{cycle4, is_odd, lemma_cycle4_flips_parity};
use std::marker::PhantomData;
use vstd::prelude::*;
use vstd::std_specs::convert::FromSpecImpl;
use vstd::string::StringExecFns;

verus! {

/// Represents each type of move. Note that the `Move` struct uses this variable along with a
/// counter to represents move such as R2 or U'.
#[derive(Debug, Clone, Copy, PartialEq, Eq, PartialOrd, Ord, Hash, Structural)]
pub enum Move333Type {
    /// Right
    R,
    /// Left
    L,
    /// Up
    U,
    /// Down
    D,
    /// Front
    F,
    /// Back
    B,
}

/// Every move type, at the position of its own index.
pub const MOVE_TYPES: [Move333Type; 6] = [
    Move333Type::R,
    Move333Type::L,
    Move333Type::U,
    Move333Type::D,
    Move333Type::F,
    Move333Type::B,
];

impl Move333Type {
    /// The letter of every move type.
    pub const NAMES: [&'static str; 6] = ["R", "L", "U", "D", "F", "B"];

    /// The letter of the move type as text.
    pub open spec fn spec_name(self) -> Seq<char> {
        Move333Type::NAMES[self.index()]@
    }

    /// The letter of the move type: that of the face it turns.
    pub fn name(self) -> (r: &'static str)
        ensures
            r@ == self.spec_name(),
    {
        Move333Type::NAMES[self.to_index()]
    }

    /// The index of the move type, which selects its rows of the turn tables.
    pub open spec fn index(self) -> int {
        self as int
    }

    /// The index of the move type.
    pub fn to_index(self) -> (r: usize)
        ensures
            r == self.index(),
            r < 6,
    {
        self as usize
    }
}

impl From<Move333Type> for usize {
    fn from(mv: Move333Type) -> (r: usize) {
        mv as usize
    }
}

impl FromSpecImpl<Move333Type> for usize {
    open spec fn obeys_from_spec() -> bool {
        true
    }

    open spec fn from_spec(mv: Move333Type) -> usize {
        mv as usize
    }
}

/// Stores a move type and counter. An anti-clockwise move will have a count of 3.
#[derive(Debug, Copy, Clone, PartialEq, Eq, PartialOrd, Ord, Hash, Structural)]
#[allow(missing_docs)]
pub struct Move333 {
    pub ty: Move333Type,
    pub count: u8,
}

impl Move for Move333 {
    open spec fn spec_inverse(self) -> Move333 {
        Move333 { ty: self.ty, count: ((4 - self.count % 4) % 4) as u8 }
    }

    open spec fn spec_commutes_with(&self, b: &Move333) -> bool {
        self.ty.index() / 2 == b.ty.index() / 2
    }

    open spec fn spec_cancel(self, b: Move333) -> Cancellation<Move333> {
        if self.ty != b.ty {
            Cancellation::TwoMove(self, b)
        } else if (self.count % 4 + b.count % 4) % 4 == 0 {
            Cancellation::NoMove
        } else {
            Cancellation::OneMove(
                Move333 { ty: self.ty, count: ((self.count % 4 + b.count % 4) % 4) as u8 },
            )
        }
    }

    /// The move of the same face that undoes this one: together the two make a
    /// multiple of four quarter turns.
    fn inverse(self) -> (r: Move333) {
        Move333 { ty: self.ty, count: (4 - self.count % 4) % 4 }
    }

    /// Two moves commute when they turn the same face or opposite faces.
    fn commutes_with(&self, b: &Move333) -> (r: bool) {
        self.ty.to_index() / 2 == b.ty.to_index() / 2
    }

    /// Two moves of the same face cancel to the move of their quarter turns taken
    /// together, or to nothing where these make a multiple of four.
    fn cancel(self, b: Move333) -> (r: Cancellation<Move333>) {
        if self.ty != b.ty {
            Cancellation::TwoMove(self, b)
        } else {
            let count = (self.count % 4 + b.count % 4) % 4;
            if count == 0 {
                Cancellation::NoMove
            } else {
                Cancellation::OneMove(Move333 { ty: self.ty, count })
            }
        }
    }
}

/// The ten digits.
pub const DIGITS: [&'static str; 10] = ["0", "1", "2", "3", "4", "5", "6", "7", "8", "9"];

/// The number `n` written in decimal.
pub open spec fn decimal_text(n: nat) -> Seq<char>
    decreases n,
{
    if n < 10 {
        DIGITS[n as int]@
    } else {
        decimal_text(n / 10) + DIGITS[(n % 10) as int]@
    }
}

/// The number `n` written in decimal.
pub fn decimal(n: u8) -> (r: String)
    ensures
        r@ == decimal_text(n as nat),
    decreases n,
{
    if n < 10 {
        String::from_str(DIGITS[n as usize])
    } else {
        let mut r = decimal(n / 10);
        r.append(DIGITS[(n % 10) as usize]);
        r
    }
}

impl Move333 {
    /// The move in the usual notation: the letter of the face, followed by nothing
    /// for a quarter turn, by an apostrophe for a quarter turn back, and by the count
    /// for any other number of quarter turns.
    pub open spec fn spec_notation(self) -> Seq<char> {
        if self.count == 1 {
            self.ty.spec_name()
        } else if self.count == 3 {
            self.ty.spec_name() + "'"@
        } else {
            self.ty.spec_name() + decimal_text(self.count as nat)
        }
    }

    /// The move in the usual notation: the letter of the face, followed by nothing
    /// for a quarter turn, by an apostrophe for a quarter turn back, and by the count
    /// for any other number of quarter turns.
    pub fn notation(&self) -> (r: String)
        ensures
            r@ == self.spec_notation(),
    {
        let mut r = String::from_str(self.ty.name());
        if self.count == 3 {
            r.append("'");
        } else if self.count != 1 {
            let digits = decimal(self.count);
            r.append(digits.as_str());
        }
        r
    }

    /// Whether the move is a quarter turn, a half turn or a quarter turn back.
    pub open spec fn is_valid(self) -> bool {
        1 <= self.count <= 3
    }

    /// The index of the move among the 18 moves of the half turn metric.
    pub open spec fn index(self) -> int {
        (self.count - 1) * 6 + self.ty.index()
    }

    /// The index of the move among the 18 moves of the half turn metric: the
    /// quarter turns come first, then the half turns, then the quarter turns back.
    pub fn to_index(self) -> (r: usize)
        requires
            self.count >= 1,
        ensures
            r == self.index(),
    {
        (self.count as usize - 1) * 6 + self.ty.to_index()
    }
}

/// A trait to classify a type as a move generator. A move generator is a set which can be used to
/// generate a set, i.e. find every combination of moves using moves in the move generator to find
/// unique states.
pub trait MoveGenerator {
    /// The moves of the set. The index of a move in this list is the index used when
    /// accessing a move table.
    spec fn moves() -> Seq<Move333>;

    /// The amount of moves that are available in the moveset.
    fn size() -> (n: usize)
        ensures
            n == Self::moves().len(),
    ;

    /// A list of all valid moves. The index of a move in this list will be the same index used
    /// when accessing the move table.
    fn move_list() -> (list: Vec<Move333>)
        ensures
            list@ == Self::moves(),
    ;

    /// The move with the given index.
    fn move_at(i: usize) -> (mv: Move333)
        requires
            i < Self::moves().len(),
        ensures
            mv == Self::moves()[i as int],
    ;
}

/// Type for Half Turn Metric
pub struct Htm;

impl MoveGenerator for Htm {
    /// The quarter turns of the six faces, then the half turns, then the quarter
    /// turns back.
    open spec fn moves() -> Seq<Move333> {
        Seq::new(18, |i: int| Move333 { ty: MOVE_TYPES[i % 6], count: (i / 6 + 1) as u8 })
    }

    fn size() -> (n: usize) {
        18
    }

    fn move_list() -> (list: Vec<Move333>) {
        let mut list: Vec<Move333> = Vec::new();
        let mut i: usize = 0;
        while i < 18
            invariant
                i <= 18,
                list.len() == i,
                forall|k: int| 0 <= k < i ==> list[k] == Htm::moves()[k],
            decreases 18 - i,
        {
            list.push(Htm::move_at(i));
            i += 1;
        }
        assert(list@ =~= Htm::moves());
        list
    }

    fn move_at(i: usize) -> (mv: Move333)
        ensures
            mv.is_valid(),
            mv.index() == i,
    {
        Move333 { ty: MOVE_TYPES[i % 6], count: (i / 6) as u8 + 1 }
    }
}

/// Type for the moves of floppy reduction: the half turns of the four side faces
pub struct Fr;

impl MoveGenerator for Fr {
    open spec fn moves() -> Seq<Move333> {
        seq![
            Move333 { ty: Move333Type::R, count: 2 },
            Move333 { ty: Move333Type::L, count: 2 },
            Move333 { ty: Move333Type::F, count: 2 },
            Move333 { ty: Move333Type::B, count: 2 },
        ]
    }

    fn size() -> (n: usize) {
        4
    }

    fn move_list() -> (list: Vec<Move333>) {
        let mut list: Vec<Move333> = Vec::new();
        list.push(Move333 { ty: Move333Type::R, count: 2 });
        list.push(Move333 { ty: Move333Type::L, count: 2 });
        list.push(Move333 { ty: Move333Type::F, count: 2 });
        list.push(Move333 { ty: Move333Type::B, count: 2 });
        assert(list@ =~= Fr::moves());
        list
    }

    fn move_at(i: usize) -> (mv: Move333) {
        let types = [Move333Type::R, Move333Type::L, Move333Type::F, Move333Type::B];
        Move333 { ty: types[i], count: 2 }
    }
}

/// Type for the moves of half turn reduction: the half turns of the six faces
pub struct Htr;

impl MoveGenerator for Htr {
    open spec fn moves() -> Seq<Move333> {
        seq![
            Move333 { ty: Move333Type::U, count: 2 },
            Move333 { ty: Move333Type::D, count: 2 },
            Move333 { ty: Move333Type::R, count: 2 },
            Move333 { ty: Move333Type::L, count: 2 },
            Move333 { ty: Move333Type::F, count: 2 },
            Move333 { ty: Move333Type::B, count: 2 },
        ]
    }

    fn size() -> (n: usize) {
        6
    }

    fn move_list() -> (list: Vec<Move333>) {
        let mut list: Vec<Move333> = Vec::new();
        list.push(Move333 { ty: Move333Type::U, count: 2 });
        list.push(Move333 { ty: Move333Type::D, count: 2 });
        list.push(Move333 { ty: Move333Type::R, count: 2 });
        list.push(Move333 { ty: Move333Type::L, count: 2 });
        list.push(Move333 { ty: Move333Type::F, count: 2 });
        list.push(Move333 { ty: Move333Type::B, count: 2 });
        assert(list@ =~= Htr::moves());
        list
    }

    fn move_at(i: usize) -> (mv: Move333) {
        let types = [
            Move333Type::U,
            Move333Type::D,
            Move333Type::R,
            Move333Type::L,
            Move333Type::F,
            Move333Type::B,
        ];
        Move333 { ty: types[i], count: 2 }
    }
}

/// A cubie cube as a group puzzle, with the moves of the set `G` as its generators.
#[derive(Debug)]
pub struct Generated<G: MoveGenerator> {
    /// The cube
    pub cube: CubieCube,
    /// The set of moves that generates the puzzle
    pub generator: PhantomData<G>,
}

impl<G: MoveGenerator> Generated<G> {
    /// The puzzle at the state of `cube`.
    pub fn new(cube: CubieCube) -> (r: Self)
        ensures
            r.cube == cube,
    {
        Generated { cube, generator: PhantomData }
    }
}

impl<G: MoveGenerator> GroupPuzzle for Generated<G> {
    type State = CubieState;

    open spec fn state(&self) -> CubieState {
        self.cube@
    }

    open spec fn solved_state() -> CubieState {
        CubieState::solved()
    }

    open spec fn generator_count() -> nat {
        G::moves().len()
    }

    open spec fn apply_generator(s: CubieState, g: int) -> CubieState {
        s.make_move(G::moves()[g])
    }

    fn generators() -> (n: usize) {
        G::size()
    }

    fn solved() -> (p: Self) {
        Generated::new(CubieCube::solved())
    }

    fn apply_move(&self, g: usize) -> (r: Self) {
        Generated::new(self.cube.make_move(G::move_at(g)))
    }
}

/// For each move type, what a quarter turn adds to the orientation of the corner
/// that comes into each slot.
pub const CO_OFFSETS: [[u8; 8]; 6] = [
    [2, 0, 0, 1, 1, 0, 0, 2],
    [0, 1, 2, 0, 0, 2, 1, 0],
    [0, 0, 0, 0, 0, 0, 0, 0],
    [0, 0, 0, 0, 0, 0, 0, 0],
    [1, 2, 0, 0, 2, 1, 0, 0],
    [0, 0, 1, 2, 0, 0, 2, 1],
];

/// For each move type, the slot from which a quarter turn brings the corner into
/// each slot.
pub const CP_OFFSETS: [[usize; 8]; 6] = [
    [4, 1, 2, 0, 7, 5, 6, 3],
    [0, 2, 6, 3, 4, 1, 5, 7],
    [3, 0, 1, 2, 4, 5, 6, 7],
    [0, 1, 2, 3, 5, 6, 7, 4],
    [1, 5, 2, 3, 0, 4, 6, 7],
    [0, 1, 3, 7, 4, 5, 2, 6],
];

/// For each move type, what a quarter turn adds to the orientation of the edge that
/// comes into each slot.
pub const EO_OFFSETS: [[u8; 12]; 6] = [
    [0, 0, 0, 0, 0, 0, 0, 0, 0, 0, 0, 0],
    [0, 0, 0, 0, 0, 0, 0, 0, 0, 0, 0, 0],
    [0, 0, 0, 0, 0, 0, 0, 0, 0, 0, 0, 0],
    [0, 0, 0, 0, 0, 0, 0, 0, 0, 0, 0, 0],
    [1, 0, 0, 0, 1, 0, 0, 0, 1, 1, 0, 0],
    [0, 0, 1, 0, 0, 0, 1, 0, 0, 0, 1, 1],
];

/// For each move type, the slot from which a quarter turn brings the edge into each
/// slot.
pub const EP_OFFSETS: [[usize; 12]; 6] = [
    [0, 1, 2, 8, 4, 5, 6, 11, 7, 9, 10, 3],
    [0, 10, 2, 3, 4, 9, 6, 7, 8, 1, 5, 11],
    [3, 0, 1, 2, 4, 5, 6, 7, 8, 9, 10, 11],
    [0, 1, 2, 3, 5, 6, 7, 4, 8, 9, 10, 11],
    [9, 1, 2, 3, 8, 5, 6, 7, 0, 4, 10, 11],
    [0, 1, 11, 3, 4, 5, 10, 7, 8, 9, 2, 6],
];

impl CubieState {
    /// The state after a quarter turn: each slot receives the piece of its source
    /// slot, and the orientation of that piece changed by the offset of the slot.
    pub open spec fn quarter_turn(self, ty: Move333Type) -> CubieState {
        let t = ty.index();
        CubieState {
            co: Seq::new(8, |i: int| (self.co[CP_OFFSETS[t][i] as int] + CO_OFFSETS[t][i]) % 3),
            cp: Seq::new(8, |i: int| self.cp[CP_OFFSETS[t][i] as int]),
            eo: Seq::new(12, |i: int| (self.eo[EP_OFFSETS[t][i] as int] + EO_OFFSETS[t][i]) % 2),
            ep: Seq::new(12, |i: int| self.ep[EP_OFFSETS[t][i] as int]),
        }
    }

    /// The state after `n` quarter turns of the same face.
    pub open spec fn quarter_turns(self, ty: Move333Type, n: nat) -> CubieState
        decreases n,
    {
        if n == 0 {
            self
        } else {
            self.quarter_turns(ty, (n - 1) as nat).quarter_turn(ty)
        }
    }

    /// The state after a move: as many quarter turns as the move counts.
    pub open spec fn make_move(self, mv: Move333) -> CubieState {
        self.quarter_turns(mv.ty, mv.count as nat)
    }

    /// The state after a sequence of moves, made one after the other.
    pub open spec fn make_moves(self, mvs: Seq<Move333>) -> CubieState
        decreases mvs.len(),
    {
        if mvs.len() == 0 {
            self
        } else {
            self.make_moves(mvs.drop_last()).make_move(mvs.last())
        }
    }
}

impl CubieCube {
    /// Copy the cube, apply a move to it, then return the new cube.
    pub fn make_move(&self, mv: Move333) -> (r: CubieCube)
        ensures
            r@ == self@.make_move(mv),
            self@.is_valid() ==> r@.is_valid(),
            self@.is_legal() ==> r@.is_legal(),
    {
        let mut r = *self;
        let mut n: u8 = 0;
        while n < mv.count
            invariant
                n <= mv.count,
                r@ == self@.quarter_turns(mv.ty, n as nat),
                self@.is_valid() ==> r@.is_valid(),
                self@.is_legal() ==> r@.is_legal(),
            decreases mv.count - n,
        {
            r = r.make_move_type(mv.ty);
            n += 1;
        }
        r
    }

    /// Apply a quarter turn to a copy of the cube.
    pub fn make_move_type(&self, mv: Move333Type) -> (r: CubieCube)
        ensures
            r@ == self@.quarter_turn(mv),
            self@.is_valid() ==> r@.is_valid(),
            self@.is_legal() ==> r@.is_legal(),
    {
        let co_offsets = CO_OFFSETS[mv as usize];
        let cp_offsets = CP_OFFSETS[mv as usize];
        let eo_offsets = EO_OFFSETS[mv as usize];
        let ep_offsets = EP_OFFSETS[mv as usize];

        let selfco = corner_twists_to_u8(&self.co);
        let selfcp = corners_to_u8(&self.cp);
        let selfeo = edge_flips_to_u8(&self.eo);
        let selfep = edges_to_u8(&self.ep);

        let mut co = [0u8;8];
        let mut cp = [0u8;8];
        let mut eo = [0u8;12];
        let mut ep = [0u8;12];

        proof {
            self.lemma_well_formed();
            lemma_tables(mv);
        }

        for i in 0..8
            invariant
                self@.well_formed(),
                tables_in_range(mv),
                co_offsets == CO_OFFSETS[mv.index()],
                cp_offsets == CP_OFFSETS[mv.index()],
                digits(selfco@) == self@.co,
                digits(selfcp@) == self@.cp,
                forall|j: int| 0 <= j < i ==> co[j] == self@.quarter_turn(mv).co[j],
                forall|j: int| 0 <= j < i ==> cp[j] == self@.quarter_turn(mv).cp[j],
        {
            assert(cp_offsets[i as int] < 8);
            assert(digits(selfco@)[cp_offsets[i as int] as int] < 3);
            assert(digits(selfcp@)[cp_offsets[i as int] as int] < 8);
            co[i] = (selfco[cp_offsets[i]] + co_offsets[i]) % 3;
            cp[i] = selfcp[cp_offsets[i]];
        }

        for i in 0..12
            invariant
                self@.well_formed(),
                tables_in_range(mv),
                eo_offsets == EO_OFFSETS[mv.index()],
                ep_offsets == EP_OFFSETS[mv.index()],
                digits(selfeo@) == self@.eo,
                digits(selfep@) == self@.ep,
                forall|j: int| 0 <= j < i ==> eo[j] == self@.quarter_turn(mv).eo[j],
                forall|j: int| 0 <= j < i ==> ep[j] == self@.quarter_turn(mv).ep[j],
        {
            assert(ep_offsets[i as int] < 12);
            assert(digits(selfeo@)[ep_offsets[i as int] as int] < 2);
            assert(digits(selfep@)[ep_offsets[i as int] as int] < 12);
            eo[i] = (selfeo[ep_offsets[i]] + eo_offsets[i]) % 2;
            ep[i] = selfep[ep_offsets[i]];
        }

        proof {
            let next = self@.quarter_turn(mv);
            assert(digits(co@) =~= next.co);
            assert(digits(cp@) =~= next.cp);
            assert(digits(eo@) =~= next.eo);
            assert(digits(ep@) =~= next.ep);
            lemma_quarter_turn_well_formed(self@, mv);
            if self@.is_valid() {
                lemma_quarter_turn_valid(self@, mv);
            }
            if self@.is_legal() {
                lemma_quarter_turn_legal(self@, mv);
            }
        }

        let r = CubieCube {
            co: u8_to_corner_twists(&co),
            cp: u8_to_corners(&cp),
            eo: u8_to_edge_flips(&eo),
            ep: u8_to_edges(&ep),
        };
        assert(r@ =~= self@.quarter_turn(mv));
        r
    }
}

/// Whether the rows of the turn tables for `ty` hold slots and orientations.
pub open spec fn tables_in_range(ty: Move333Type) -> bool {
    let t = ty.index();
    &&& 0 <= t < 6
    &&& forall|i: int| 0 <= i < 8 ==> CP_OFFSETS[t][i] < 8 && CO_OFFSETS[t][i] < 3
    &&& forall|i: int| 0 <= i < 12 ==> EP_OFFSETS[t][i] < 12 && EO_OFFSETS[t][i] < 2
}

/// The turn tables hold slots and orientations.
pub proof fn lemma_tables(ty: Move333Type)
    ensures
        tables_in_range(ty),
{
}

/// The four corner slots that a quarter turn moves, each followed by its source.
pub open spec fn corner_cycle(ty: Move333Type) -> (int, int, int, int) {
    match ty {
        Move333Type::R => (0, 4, 7, 3),
        Move333Type::L => (1, 2, 6, 5),
        Move333Type::U => (0, 3, 2, 1),
        Move333Type::D => (4, 5, 6, 7),
        Move333Type::F => (0, 1, 5, 4),
        Move333Type::B => (2, 3, 7, 6),
    }
}

/// The four edge slots that a quarter turn moves, each followed by its source.
pub open spec fn edge_cycle(ty: Move333Type) -> (int, int, int, int) {
    match ty {
        Move333Type::R => (3, 8, 7, 11),
        Move333Type::L => (1, 10, 5, 9),
        Move333Type::U => (0, 3, 2, 1),
        Move333Type::D => (4, 5, 6, 7),
        Move333Type::F => (0, 9, 4, 8),
        Move333Type::B => (2, 11, 6, 10),
    }
}

/// A quarter turn moves four corners round a cycle and four edges round a cycle.
pub proof fn lemma_quarter_turn_cycles(s: CubieState, ty: Move333Type)
    requires
        s.well_formed(),
    ensures
        s.quarter_turn(ty).cp == ({
            let (a, b, c, d) = corner_cycle(ty);
            cycle4(s.cp, a, b, c, d)
        }),
        s.quarter_turn(ty).ep == ({
            let (a, b, c, d) = edge_cycle(ty);
            cycle4(s.ep, a, b, c, d)
        }),
{
    let (a, b, c, d) = corner_cycle(ty);
    assert(s.quarter_turn(ty).cp =~= cycle4(s.cp, a, b, c, d));
    let (a, b, c, d) = edge_cycle(ty);
    assert(s.quarter_turn(ty).ep =~= cycle4(s.ep, a, b, c, d));
}

/// A quarter turn gives each slot a piece and an orientation.
pub proof fn lemma_quarter_turn_well_formed(s: CubieState, ty: Move333Type)
    requires
        s.well_formed(),
    ensures
        s.quarter_turn(ty).well_formed(),
{
    lemma_tables(ty);
}

/// A quarter turn keeps every piece in one slot.
pub proof fn lemma_quarter_turn_valid(s: CubieState, ty: Move333Type)
    requires
        s.is_valid(),
    ensures
        s.quarter_turn(ty).is_valid(),
        is_odd(s.quarter_turn(ty).cp) != is_odd(s.cp),
        is_odd(s.quarter_turn(ty).ep) != is_odd(s.ep),
{
    lemma_quarter_turn_well_formed(s, ty);
    lemma_quarter_turn_cycles(s, ty);
    let (a, b, c, d) = corner_cycle(ty);
    lemma_cycle4_flips_parity(s.cp, a, b, c, d);
    let (a, b, c, d) = edge_cycle(ty);
    lemma_cycle4_flips_parity(s.ep, a, b, c, d);
}

/// Moving four digits round a cycle keeps the sum of the digits.
pub proof fn lemma_cycle4_sum(v: Seq<int>, a: int, b: int, c: int, d: int)
    requires
        0 <= a < v.len(),
        0 <= b < v.len(),
        0 <= c < v.len(),
        0 <= d < v.len(),
        a != b && a != c && a != d && b != c && b != d && c != d,
    ensures
        digit_sum(cycle4(v, a, b, c, d)) == digit_sum(v),
{
    let v1 = v.update(a, v[b]);
    let v2 = v1.update(b, v[c]);
    let v3 = v2.update(c, v[d]);
    lemma_digit_sum_update(v, a, v[b]);
    lemma_digit_sum_update(v1, b, v[c]);
    lemma_digit_sum_update(v2, c, v[d]);
    lemma_digit_sum_update(v3, d, v[a]);
}

/// The orientation offsets of a quarter turn add up to zero, for the corners
/// modulo 3 and for the edges modulo 2.
pub proof fn lemma_offsets_sum(ty: Move333Type)
    ensures
        digit_sum(digits(CO_OFFSETS[ty.index()]@)) % 3 == 0,
        digit_sum(digits(EO_OFFSETS[ty.index()]@)) % 2 == 0,
{
    let co = digits(CO_OFFSETS[ty.index()]@);
    let eo = digits(EO_OFFSETS[ty.index()]@);
    lemma_tables(ty);
    reveal_with_fuel(digit_sum, 13);
    assert(digit_sum(co.take(0)) == 0);
    assert(digit_sum(eo.take(0)) == 0);
    assert(co.take(1).drop_last() =~= co.take(0));
    assert(co.take(2).drop_last() =~= co.take(1));
    assert(co.take(3).drop_last() =~= co.take(2));
    assert(co.take(4).drop_last() =~= co.take(3));
    assert(co.take(5).drop_last() =~= co.take(4));
    assert(co.take(6).drop_last() =~= co.take(5));
    assert(co.take(7).drop_last() =~= co.take(6));
    assert(co.drop_last() =~= co.take(7));
    assert(eo.take(1).drop_last() =~= eo.take(0));
    assert(eo.take(2).drop_last() =~= eo.take(1));
    assert(eo.take(3).drop_last() =~= eo.take(2));
    assert(eo.take(4).drop_last() =~= eo.take(3));
    assert(eo.take(5).drop_last() =~= eo.take(4));
    assert(eo.take(6).drop_last() =~= eo.take(5));
    assert(eo.take(7).drop_last() =~= eo.take(6));
    assert(eo.take(8).drop_last() =~= eo.take(7));
    assert(eo.take(9).drop_last() =~= eo.take(8));
    assert(eo.take(10).drop_last() =~= eo.take(9));
    assert(eo.take(11).drop_last() =~= eo.take(10));
    assert(eo.drop_last() =~= eo.take(11));
}

/// A quarter turn keeps the sum of the corner orientations modulo 3 and the sum of
/// the edge orientations modulo 2.
pub proof fn lemma_quarter_turn_orientation(s: CubieState, ty: Move333Type)
    requires
        s.well_formed(),
    ensures
        s.quarter_turn(ty).co_parity() == s.co_parity(),
        s.quarter_turn(ty).eo_parity() == s.eo_parity(),
{
    let next = s.quarter_turn(ty);
    lemma_tables(ty);
    lemma_offsets_sum(ty);
    let (a, b, c, d) = corner_cycle(ty);
    let moved = cycle4(s.co, a, b, c, d);
    let offsets = digits(CO_OFFSETS[ty.index()]@);
    assert(moved =~= Seq::new(8, |i: int| s.co[CP_OFFSETS[ty.index()][i] as int]));
    lemma_cycle4_sum(s.co, a, b, c, d);
    lemma_digit_sum_shifted(moved, offsets, next.co, 3);
    let (a, b, c, d) = edge_cycle(ty);
    let moved = cycle4(s.eo, a, b, c, d);
    let offsets = digits(EO_OFFSETS[ty.index()]@);
    assert(moved =~= Seq::new(12, |i: int| s.eo[EP_OFFSETS[ty.index()][i] as int]));
    lemma_cycle4_sum(s.eo, a, b, c, d);
    lemma_digit_sum_shifted(moved, offsets, next.eo, 2);
}

/// A quarter turn of a legal state gives a legal state.
pub proof fn lemma_quarter_turn_legal(s: CubieState, ty: Move333Type)
    requires
        s.is_legal(),
    ensures
        s.quarter_turn(ty).is_legal(),
{
    lemma_quarter_turn_valid(s, ty);
    lemma_quarter_turn_orientation(s, ty);
}

/// Quarter turns add up: `m` of them and then `n` more are `m + n`.
pub proof fn lemma_quarter_turns_add(s: CubieState, ty: Move333Type, m: nat, n: nat)
    ensures
        s.quarter_turns(ty, m).quarter_turns(ty, n) == s.quarter_turns(ty, m + n),
    decreases n,
{
    if n > 0 {
        lemma_quarter_turns_add(s, ty, m, (n - 1) as nat);
    }
}

/// The digits of `v` moved as `source` says, each then raised by its `offset` and
/// reduced modulo `m`.
pub open spec fn shifted(v: Seq<int>, source: Seq<int>, offset: Seq<int>, m: int) -> Seq<int> {
    Seq::new(v.len(), |i: int| (v[source[i]] + offset[i]) % m)
}

/// Whether `source` names a position of a sequence of its own length at every
/// position.
pub open spec fn is_source(source: Seq<int>) -> bool {
    forall|i: int| 0 <= i < source.len() ==> 0 <= #[trigger] source[i] < source.len()
}

/// The sources of two shifts made one after the other.
pub open spec fn twice_source(source: Seq<int>) -> Seq<int> {
    Seq::new(source.len(), |i: int| source[source[i]])
}

/// The offsets of two shifts made one after the other.
pub open spec fn twice_offset(source: Seq<int>, offset: Seq<int>) -> Seq<int> {
    Seq::new(source.len(), |i: int| offset[source[i]] + offset[i])
}

/// Two equal shifts, one after the other, are one shift.
pub proof fn lemma_shifted_twice(v: Seq<int>, source: Seq<int>, offset: Seq<int>, m: int)
    requires
        m >= 1,
        v.len() == source.len(),
        v.len() == offset.len(),
        is_source(source),
    ensures
        shifted(shifted(v, source, offset, m), source, offset, m) == shifted(
            v,
            twice_source(source),
            twice_offset(source, offset),
            m,
        ),
        is_source(twice_source(source)),
{
    let once = shifted(v, source, offset, m);
    let twice = shifted(once, source, offset, m);
    let direct = shifted(v, twice_source(source), twice_offset(source, offset), m);
    assert forall|i: int| 0 <= i < v.len() implies twice[i] == direct[i] by {
        let k = source[i];
        assert(0 <= k < source.len());
        assert(once[k] == (v[source[k]] + offset[k]) % m);
        vstd::arithmetic::div_mod::lemma_add_mod_noop_right(
            offset[i],
            v[source[k]] + offset[k],
            m,
        );
    }
    assert(twice =~= direct);
    assert forall|i: int| 0 <= i < source.len() implies 0 <= #[trigger] twice_source(source)[i]
        < source.len() by {
        assert(0 <= source[i] < source.len());
    }
}

/// A shift that moves nothing and adds multiples of `m` changes nothing.
pub proof fn lemma_shifted_identity(v: Seq<int>, source: Seq<int>, offset: Seq<int>, m: int)
    requires
        m >= 1,
        in_range(v, m),
        v.len() == source.len(),
        v.len() == offset.len(),
        forall|i: int| 0 <= i < source.len() ==> source[i] == i,
        forall|i: int| 0 <= i < offset.len() ==> offset[i] % m == 0,
    ensures
        shifted(v, source, offset, m) == v,
{
    let w = shifted(v, source, offset, m);
    assert forall|i: int| 0 <= i < v.len() implies w[i] == v[i] by {
        vstd::arithmetic::div_mod::lemma_add_mod_noop(v[i], offset[i], m);
        vstd::arithmetic::div_mod::lemma_small_mod(v[i] as nat, m as nat);
    }
    assert(w =~= v);
}

/// The source slots of the corners under a quarter turn.
pub open spec fn corner_source(ty: Move333Type) -> Seq<int> {
    Seq::new(8, |i: int| CP_OFFSETS[ty.index()][i] as int)
}

/// The source slots of the edges under a quarter turn.
pub open spec fn edge_source(ty: Move333Type) -> Seq<int> {
    Seq::new(12, |i: int| EP_OFFSETS[ty.index()][i] as int)
}

/// Going four times from a slot to its source leads back to the slot, and the
/// orientation offsets met on the way add up to zero.
pub proof fn lemma_tables_order(ty: Move333Type)
    ensures
        twice_source(twice_source(corner_source(ty))) == crate::ranking::permutation::identity(8),
        twice_source(twice_source(edge_source(ty))) == crate::ranking::permutation::identity(12),
        forall|i: int|
            0 <= i < 8 ==> (#[trigger] twice_offset(
                twice_source(corner_source(ty)),
                twice_offset(corner_source(ty), digits(CO_OFFSETS[ty.index()]@)),
            )[i]) % 3 == 0,
        forall|i: int|
            0 <= i < 12 ==> (#[trigger] twice_offset(
                twice_source(edge_source(ty)),
                twice_offset(edge_source(ty), digits(EO_OFFSETS[ty.index()]@)),
            )[i]) % 2 == 0,
{
    lemma_tables(ty);
    let c = corner_source(ty);
    let e = edge_source(ty);
    assert(twice_source(twice_source(c)) =~= crate::ranking::permutation::identity(8));
    assert(twice_source(twice_source(e)) =~= crate::ranking::permutation::identity(12));
}

/// Four quarter turns of a face bring every state back.
pub proof fn lemma_quarter_turn_order(s: CubieState, ty: Move333Type)
    requires
        s.well_formed(),
    ensures
        s.quarter_turns(ty, 4) == s,
{
    let s1 = s.quarter_turn(ty);
    let s2 = s1.quarter_turn(ty);
    let s3 = s2.quarter_turn(ty);
    let s4 = s3.quarter_turn(ty);
    reveal_with_fuel(CubieState::quarter_turns, 5);
    assert(s.quarter_turns(ty, 4) == s4);
    lemma_tables(ty);
    lemma_tables_order(ty);
    lemma_quarter_turn_well_formed(s, ty);
    lemma_quarter_turn_well_formed(s1, ty);
    lemma_quarter_turn_well_formed(s2, ty);
    let c = corner_source(ty);
    let e = edge_source(ty);
    let co = digits(CO_OFFSETS[ty.index()]@);
    let eo = digits(EO_OFFSETS[ty.index()]@);
    let zc = Seq::new(8, |i: int| 0int);
    let ze = Seq::new(12, |i: int| 0int);
    assert(is_source(c));
    assert(is_source(e));
    lemma_four_shifts(s.co, c, co, 3);
    lemma_four_shifts(s.cp, c, zc, 8);
    lemma_four_shifts(s.eo, e, eo, 2);
    lemma_four_shifts(s.ep, e, ze, 12);
    assert(s1.co =~= shifted(s.co, c, co, 3));
    assert(s2.co =~= shifted(s1.co, c, co, 3));
    assert(s3.co =~= shifted(s2.co, c, co, 3));
    assert(s4.co =~= shifted(s3.co, c, co, 3));
    assert(s1.eo =~= shifted(s.eo, e, eo, 2));
    assert(s2.eo =~= shifted(s1.eo, e, eo, 2));
    assert(s3.eo =~= shifted(s2.eo, e, eo, 2));
    assert(s4.eo =~= shifted(s3.eo, e, eo, 2));
    assert(s1.cp =~= shifted(s.cp, c, zc, 8));
    assert(s2.cp =~= shifted(s1.cp, c, zc, 8));
    assert(s3.cp =~= shifted(s2.cp, c, zc, 8));
    assert(s4.cp =~= shifted(s3.cp, c, zc, 8));
    assert(s1.ep =~= shifted(s.ep, e, ze, 12));
    assert(s2.ep =~= shifted(s1.ep, e, ze, 12));
    assert(s3.ep =~= shifted(s2.ep, e, ze, 12));
    assert(s4.ep =~= shifted(s3.ep, e, ze, 12));
    lemma_shifted_identity(
        s.co,
        twice_source(twice_source(c)),
        twice_offset(twice_source(c), twice_offset(c, co)),
        3,
    );
    lemma_shifted_identity(
        s.cp,
        twice_source(twice_source(c)),
        twice_offset(twice_source(c), twice_offset(c, zc)),
        8,
    );
    lemma_shifted_identity(
        s.eo,
        twice_source(twice_source(e)),
        twice_offset(twice_source(e), twice_offset(e, eo)),
        2,
    );
    lemma_shifted_identity(
        s.ep,
        twice_source(twice_source(e)),
        twice_offset(twice_source(e), twice_offset(e, ze)),
        12,
    );
}

/// Four equal shifts, one after the other, are one shift.
pub proof fn lemma_four_shifts(v: Seq<int>, source: Seq<int>, offset: Seq<int>, m: int)
    requires
        m >= 1,
        v.len() == source.len(),
        v.len() == offset.len(),
        is_source(source),
    ensures
        shifted(shifted(shifted(shifted(v, source, offset, m), source, offset, m), source, offset, m), source, offset, m)
            == shifted(
            v,
            twice_source(twice_source(source)),
            twice_offset(twice_source(source), twice_offset(source, offset)),
            m,
        ),
{
    let v2 = shifted(shifted(v, source, offset, m), source, offset, m);
    lemma_shifted_twice(v, source, offset, m);
    lemma_shifted_twice(v2, source, offset, m);
    lemma_shifted_twice(v, twice_source(source), twice_offset(source, offset), m);
}

/// A quarter turn made four times, or a half turn made twice, brings every state
/// back.
pub proof fn lemma_move_order(s: CubieState, mv: Move333)
    requires
        s.well_formed(),
    ensures
        mv.count == 1 || mv.count == 3 ==> s.make_move(mv).make_move(mv).make_move(mv).make_move(mv)
            == s,
        mv.count == 2 ==> s.make_move(mv).make_move(mv) == s,
        mv.count == 4 ==> s.make_move(mv) == s,
{
    let n = mv.count as nat;
    lemma_quarter_turn_order(s, mv.ty);
    lemma_quarter_turns_add(s, mv.ty, n, n);
    lemma_quarter_turns_add(s, mv.ty, n + n, n);
    lemma_quarter_turns_add(s, mv.ty, n + n + n, n);
    if mv.count == 3 {
        lemma_quarter_turns_add(s, mv.ty, 4, 4);
        lemma_quarter_turns_add(s, mv.ty, 8, 4);
    }
}

/// Quarter turns in a multiple of four bring every state back.
pub proof fn lemma_quarter_turns_multiple(s: CubieState, ty: Move333Type, k: nat)
    requires
        s.well_formed(),
    ensures
        s.quarter_turns(ty, 4 * k) == s,
    decreases k,
{
    if k > 0 {
        lemma_quarter_turns_multiple(s, ty, (k - 1) as nat);
        lemma_quarter_turns_add(s, ty, (4 * (k - 1)) as nat, 4);
        lemma_quarter_turn_order(s, ty);
    }
}

/// Only the number of quarter turns modulo four counts.
pub proof fn lemma_quarter_turns_modulo(s: CubieState, ty: Move333Type, n: nat)
    requires
        s.well_formed(),
    ensures
        s.quarter_turns(ty, n) == s.quarter_turns(ty, n % 4),
{
    lemma_quarter_turns_multiple(s, ty, n / 4);
    lemma_quarter_turns_add(s, ty, 4 * (n / 4), n % 4);
}

/// A move followed by its inverse brings every state back, and so does the inverse
/// followed by the move.
pub proof fn lemma_inverse_undoes(s: CubieState, mv: Move333)
    requires
        s.well_formed(),
    ensures
        s.make_move(mv).make_move(mv.spec_inverse()) == s,
        s.make_move(mv.spec_inverse()).make_move(mv) == s,
{
    let n = mv.count as nat;
    let m = mv.spec_inverse().count as nat;
    lemma_quarter_turns_add(s, mv.ty, n, m);
    lemma_quarter_turns_add(s, mv.ty, m, n);
    lemma_quarter_turns_modulo(s, mv.ty, n + m);
}

/// What two moves cancel to does to every state what the two moves do, one after
/// the other.
pub proof fn lemma_cancel_keeps(s: CubieState, a: Move333, b: Move333)
    requires
        s.well_formed(),
    ensures
        match a.spec_cancel(b) {
            Cancellation::NoMove => s.make_move(a).make_move(b) == s,
            Cancellation::OneMove(c) => s.make_move(a).make_move(b) == s.make_move(c),
            Cancellation::TwoMove(c, d) => s.make_move(a).make_move(b) == s.make_move(c).make_move(
                d,
            ),
        },
{
    if a.ty == b.ty {
        let n = a.count as nat;
        let m = b.count as nat;
        lemma_quarter_turns_add(s, a.ty, n, m);
        lemma_quarter_turns_modulo(s, a.ty, n + m);
        assert((n + m) % 4 == (n % 4 + m % 4) % 4);
    }
}

/// Two shifts, one after the other, are one shift.
pub proof fn lemma_shifted_compose(
    v: Seq<int>,
    source1: Seq<int>,
    offset1: Seq<int>,
    source2: Seq<int>,
    offset2: Seq<int>,
    m: int,
)
    requires
        m >= 1,
        v.len() == source1.len(),
        v.len() == offset1.len(),
        v.len() == source2.len(),
        v.len() == offset2.len(),
        is_source(source1),
        is_source(source2),
    ensures
        shifted(shifted(v, source1, offset1, m), source2, offset2, m) == shifted(
            v,
            Seq::new(v.len(), |i: int| source1[source2[i]]),
            Seq::new(v.len(), |i: int| offset1[source2[i]] + offset2[i]),
            m,
        ),
{
    let once = shifted(v, source1, offset1, m);
    let both = shifted(once, source2, offset2, m);
    let direct = shifted(
        v,
        Seq::new(v.len(), |i: int| source1[source2[i]]),
        Seq::new(v.len(), |i: int| offset1[source2[i]] + offset2[i]),
        m,
    );
    assert forall|i: int| 0 <= i < v.len() implies both[i] == direct[i] by {
        let k = source2[i];
        assert(0 <= k < source2.len());
        assert(once[k] == (v[source1[k]] + offset1[k]) % m);
        vstd::arithmetic::div_mod::lemma_add_mod_noop_right(
            offset2[i],
            v[source1[k]] + offset1[k],
            m,
        );
    }
    assert(both =~= direct);
}

/// The move type of the face opposite to that of `ty`.
pub open spec fn opposite(ty: Move333Type) -> Move333Type {
    match ty {
        Move333Type::R => Move333Type::L,
        Move333Type::L => Move333Type::R,
        Move333Type::U => Move333Type::D,
        Move333Type::D => Move333Type::U,
        Move333Type::F => Move333Type::B,
        Move333Type::B => Move333Type::F,
    }
}

/// The quarter turns of opposite faces move different slots, so in the tables it
/// makes no difference which of the two is looked up first.
pub proof fn lemma_tables_commute(a: Move333Type)
    ensures
        forall|i: int|
            0 <= i < 8 ==> #[trigger] corner_source(a)[corner_source(opposite(a))[i]]
                == corner_source(opposite(a))[corner_source(a)[i]],
        forall|i: int|
            0 <= i < 12 ==> #[trigger] edge_source(a)[edge_source(opposite(a))[i]] == edge_source(
                opposite(a),
            )[edge_source(a)[i]],
        forall|i: int|
            0 <= i < 8 ==> #[trigger] CO_OFFSETS[a.index()][corner_source(opposite(a))[i]]
                + CO_OFFSETS[opposite(a).index()][i] == CO_OFFSETS[opposite(
                a,
            ).index()][corner_source(a)[i]] + CO_OFFSETS[a.index()][i],
        forall|i: int|
            0 <= i < 12 ==> #[trigger] EO_OFFSETS[a.index()][edge_source(opposite(a))[i]]
                + EO_OFFSETS[opposite(a).index()][i] == EO_OFFSETS[opposite(
                a,
            ).index()][edge_source(a)[i]] + EO_OFFSETS[a.index()][i],
{
    lemma_tables(a);
    lemma_tables(opposite(a));
}

/// The four arrays of a state after a quarter turn, as shifts of the arrays before.
pub proof fn lemma_quarter_turn_shifts(s: CubieState, ty: Move333Type)
    requires
        s.well_formed(),
    ensures
        s.quarter_turn(ty).co == shifted(s.co, corner_source(ty), digits(CO_OFFSETS[ty.index()]@), 3),
        s.quarter_turn(ty).cp == shifted(s.cp, corner_source(ty), Seq::new(8, |i: int| 0int), 8),
        s.quarter_turn(ty).eo == shifted(s.eo, edge_source(ty), digits(EO_OFFSETS[ty.index()]@), 2),
        s.quarter_turn(ty).ep == shifted(s.ep, edge_source(ty), Seq::new(12, |i: int| 0int), 12),
        is_source(corner_source(ty)),
        is_source(edge_source(ty)),
{
    lemma_tables(ty);
    let t = s.quarter_turn(ty);
    assert(t.co =~= shifted(s.co, corner_source(ty), digits(CO_OFFSETS[ty.index()]@), 3));
    assert(t.cp =~= shifted(s.cp, corner_source(ty), Seq::new(8, |i: int| 0int), 8));
    assert(t.eo =~= shifted(s.eo, edge_source(ty), digits(EO_OFFSETS[ty.index()]@), 2));
    assert(t.ep =~= shifted(s.ep, edge_source(ty), Seq::new(12, |i: int| 0int), 12));
}

/// Quarter turns of opposite faces can be made in either order.
pub proof fn lemma_quarter_turn_commutes(s: CubieState, a: Move333Type)
    requires
        s.well_formed(),
    ensures
        s.quarter_turn(a).quarter_turn(opposite(a)) == s.quarter_turn(opposite(a)).quarter_turn(a),
{
    let b = opposite(a);
    let sa = s.quarter_turn(a);
    let sb = s.quarter_turn(b);
    lemma_quarter_turn_well_formed(s, a);
    lemma_quarter_turn_well_formed(s, b);
    lemma_quarter_turn_shifts(s, a);
    lemma_quarter_turn_shifts(s, b);
    lemma_quarter_turn_shifts(sa, b);
    lemma_quarter_turn_shifts(sb, a);
    lemma_tables_commute(a);
    let ca = corner_source(a);
    let cb = corner_source(b);
    let ea = edge_source(a);
    let eb = edge_source(b);
    let oa = digits(CO_OFFSETS[a.index()]@);
    let ob = digits(CO_OFFSETS[b.index()]@);
    let fa = digits(EO_OFFSETS[a.index()]@);
    let fb = digits(EO_OFFSETS[b.index()]@);
    let zc = Seq::new(8, |i: int| 0int);
    let ze = Seq::new(12, |i: int| 0int);
    lemma_shifted_compose(s.co, ca, oa, cb, ob, 3);
    lemma_shifted_compose(s.co, cb, ob, ca, oa, 3);
    lemma_shifted_compose(s.cp, ca, zc, cb, zc, 8);
    lemma_shifted_compose(s.cp, cb, zc, ca, zc, 8);
    lemma_shifted_compose(s.eo, ea, fa, eb, fb, 2);
    lemma_shifted_compose(s.eo, eb, fb, ea, fa, 2);
    lemma_shifted_compose(s.ep, ea, ze, eb, ze, 12);
    lemma_shifted_compose(s.ep, eb, ze, ea, ze, 12);
    assert(Seq::new(8, |i: int| ca[cb[i]]) =~= Seq::new(8, |i: int| cb[ca[i]]));
    assert(Seq::new(12, |i: int| ea[eb[i]]) =~= Seq::new(12, |i: int| eb[ea[i]]));
    assert(Seq::new(8, |i: int| oa[cb[i]] + ob[i]) =~= Seq::new(8, |i: int| ob[ca[i]] + oa[i]));
    assert(Seq::new(12, |i: int| fa[eb[i]] + fb[i]) =~= Seq::new(12, |i: int| fb[ea[i]] + fa[i]));
    assert(Seq::new(8, |i: int| zc[cb[i]] + zc[i]) =~= Seq::new(8, |i: int| zc[ca[i]] + zc[i]));
    assert(Seq::new(12, |i: int| ze[eb[i]] + ze[i]) =~= Seq::new(12, |i: int| ze[ea[i]] + ze[i]));
    assert(sa.quarter_turn(b) =~= sb.quarter_turn(a));
}

/// Any numbers of quarter turns of opposite faces can be made in either order.
pub proof fn lemma_quarter_turns_commute(s: CubieState, a: Move333Type, m: nat, n: nat)
    requires
        s.well_formed(),
    ensures
        s.quarter_turns(a, m).quarter_turns(opposite(a), n) == s.quarter_turns(
            opposite(a),
            n,
        ).quarter_turns(a, m),
    decreases m + n,
{
    let b = opposite(a);
    if n > 0 {
        let k = (n - 1) as nat;
        // one turn of `b` less, and then that turn moved past the turns of `a`
        lemma_quarter_turns_commute(s, a, m, k);
        lemma_quarter_turns_keep(s, b, k);
        lemma_quarter_turn_past(s.quarter_turns(b, k), a, m);
    }
}

/// A quarter turn can be made before or after any number of quarter turns of the
/// opposite face.
pub proof fn lemma_quarter_turn_past(s: CubieState, a: Move333Type, m: nat)
    requires
        s.well_formed(),
    ensures
        s.quarter_turns(a, m).quarter_turn(opposite(a)) == s.quarter_turn(opposite(a)).quarter_turns(
            a,
            m,
        ),
    decreases m,
{
    if m > 0 {
        let k = (m - 1) as nat;
        lemma_quarter_turn_past(s, a, k);
        lemma_quarter_turns_keep(s, a, k);
        lemma_quarter_turn_commutes(s.quarter_turns(a, k), a);
    }
}

/// Moves that commute can be made in either order.
pub proof fn lemma_commuting_moves(s: CubieState, a: Move333, b: Move333)
    requires
        s.well_formed(),
        a.spec_commutes_with(&b),
    ensures
        s.make_move(a).make_move(b) == s.make_move(b).make_move(a),
{
    let m = a.count as nat;
    let n = b.count as nat;
    if a.ty == b.ty {
        lemma_quarter_turns_add(s, a.ty, m, n);
        lemma_quarter_turns_add(s, a.ty, n, m);
    } else {
        assert(b.ty == opposite(a.ty));
        lemma_quarter_turns_commute(s, a.ty, m, n);
    }
}

/// The moves of two sequences, one sequence after the other, do what the one
/// sequence does and then what the other does.
pub proof fn lemma_make_moves_concat(s: CubieState, a: Seq<Move333>, b: Seq<Move333>)
    ensures
        s.make_moves(a + b) == s.make_moves(a).make_moves(b),
    decreases b.len(),
{
    if b.len() == 0 {
        assert(a + b =~= a);
    } else {
        lemma_make_moves_concat(s, a, b.drop_last());
        assert((a + b).drop_last() =~= a + b.drop_last());
        assert((a + b).last() == b.last());
    }
}

/// Any sequence of moves gives each slot a piece and an orientation.
pub proof fn lemma_moves_well_formed(s: CubieState, mvs: Seq<Move333>)
    requires
        s.well_formed(),
    ensures
        s.make_moves(mvs).well_formed(),
    decreases mvs.len(),
{
    if mvs.len() > 0 {
        lemma_moves_well_formed(s, mvs.drop_last());
        lemma_quarter_turns_keep(s.make_moves(mvs.drop_last()), mvs.last().ty, mvs.last().count as nat);
    }
}

/// A sequence of moves followed by its inverse brings every state back.
pub proof fn lemma_inverse_sequence_undoes(s: CubieState, mvs: Seq<Move333>)
    requires
        s.well_formed(),
    ensures
        s.make_moves(mvs).make_moves(inverse_sequence(mvs)) == s,
    decreases mvs.len(),
{
    let inverse = inverse_sequence(mvs);
    if mvs.len() == 0 {
        assert(inverse =~= Seq::<Move333>::empty());
    } else {
        let before = s.make_moves(mvs.drop_last());
        let first = seq![mvs.last().spec_inverse()];
        let rest = inverse_sequence(mvs.drop_last());
        assert(inverse =~= first + rest);
        lemma_moves_well_formed(s, mvs.drop_last());
        lemma_make_moves_concat(before.make_move(mvs.last()), first, rest);
        assert(first.drop_last() =~= Seq::<Move333>::empty());
        assert(before.make_move(mvs.last()).make_moves(first) == before.make_move(
            mvs.last(),
        ).make_move(mvs.last().spec_inverse())) by {
            assert(before.make_move(mvs.last()).make_moves(first.drop_last()) == before.make_move(
                mvs.last(),
            ));
        }
        lemma_inverse_undoes(before, mvs.last());
        lemma_inverse_sequence_undoes(s, mvs.drop_last());
    }
}

/// Any number of quarter turns of a legal state gives a legal state.
pub proof fn lemma_quarter_turns_legal(s: CubieState, ty: Move333Type, n: nat)
    requires
        s.is_legal(),
    ensures
        s.quarter_turns(ty, n).is_legal(),
    decreases n,
{
    if n > 0 {
        lemma_quarter_turns_legal(s, ty, (n - 1) as nat);
        lemma_quarter_turn_legal(s.quarter_turns(ty, (n - 1) as nat), ty);
    }
}

/// Any sequence of moves takes a legal state to a legal state.
pub proof fn lemma_moves_legal(s: CubieState, mvs: Seq<Move333>)
    requires
        s.is_legal(),
    ensures
        s.make_moves(mvs).is_legal(),
    decreases mvs.len(),
{
    if mvs.len() > 0 {
        lemma_moves_legal(s, mvs.drop_last());
        lemma_quarter_turns_legal(s.make_moves(mvs.drop_last()), mvs.last().ty, mvs.last().count as nat);
    }
}

/// What quarter turns do to one of the four arrays of a state depends on that
/// array alone.
pub proof fn lemma_quarter_turns_apart(s1: CubieState, s2: CubieState, ty: Move333Type, n: nat)
    ensures
        s1.co == s2.co ==> s1.quarter_turns(ty, n).co == s2.quarter_turns(ty, n).co,
        s1.cp == s2.cp ==> s1.quarter_turns(ty, n).cp == s2.quarter_turns(ty, n).cp,
        s1.eo == s2.eo ==> s1.quarter_turns(ty, n).eo == s2.quarter_turns(ty, n).eo,
        s1.ep == s2.ep ==> s1.quarter_turns(ty, n).ep == s2.quarter_turns(ty, n).ep,
    decreases n,
{
    if n > 0 {
        let t1 = s1.quarter_turns(ty, (n - 1) as nat);
        let t2 = s2.quarter_turns(ty, (n - 1) as nat);
        lemma_quarter_turns_apart(s1, s2, ty, (n - 1) as nat);
        if s1.co == s2.co {
            assert(t1.quarter_turn(ty).co =~= t2.quarter_turn(ty).co);
        }
        if s1.cp == s2.cp {
            assert(t1.quarter_turn(ty).cp =~= t2.quarter_turn(ty).cp);
        }
        if s1.eo == s2.eo {
            assert(t1.quarter_turn(ty).eo =~= t2.quarter_turn(ty).eo);
        }
        if s1.ep == s2.ep {
            assert(t1.quarter_turn(ty).ep =~= t2.quarter_turn(ty).ep);
        }
    }
}

/// Quarter turns give each slot a piece and an orientation, keep the sums of the
/// orientations, and keep the corners apart and the edges apart.
pub proof fn lemma_quarter_turns_keep(s: CubieState, ty: Move333Type, n: nat)
    requires
        s.well_formed(),
    ensures
        s.quarter_turns(ty, n).well_formed(),
        s.quarter_turns(ty, n).co_parity() == s.co_parity(),
        s.quarter_turns(ty, n).eo_parity() == s.eo_parity(),
        s.cp.no_duplicates() ==> s.quarter_turns(ty, n).cp.no_duplicates(),
        s.ep.no_duplicates() ==> s.quarter_turns(ty, n).ep.no_duplicates(),
    decreases n,
{
    if n > 0 {
        let t = s.quarter_turns(ty, (n - 1) as nat);
        lemma_quarter_turns_keep(s, ty, (n - 1) as nat);
        lemma_quarter_turn_well_formed(t, ty);
        lemma_quarter_turn_orientation(t, ty);
        lemma_quarter_turn_cycles(t, ty);
        if t.cp.no_duplicates() {
            let (a, b, c, d) = corner_cycle(ty);
            lemma_cycle4_flips_parity(t.cp, a, b, c, d);
        }
        if t.ep.no_duplicates() {
            let (a, b, c, d) = edge_cycle(ty);
            lemma_cycle4_flips_parity(t.ep, a, b, c, d);
        }
    }
}

} // verus!
