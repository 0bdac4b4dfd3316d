//! The 3x3x3 cube: its pieces, its stickers, and the states built from them.

use vstd::prelude::*;
use vstd::std_specs::cmp::PartialEqSpecImpl;
use vstd::std_specs::convert::{FromSpecImpl, TryFromSpecImpl};

/// A cube represented by coordinates, which are integers that rank the arrays of a
/// cubie cube.
pub mod coordcube;
/// Definitions for corner pieces
pub mod corner;
/// Parity and legality of a cubie cube
pub mod cubiecube;
/// Definitions for edge pieces
pub mod edge;
/// Defines move types and implements application of moves to the CubieCube.
pub mod moves;
/// Sets of cubes and the search for a way from a cube into a set
pub mod search;
/// The cube as its stickers, and the conversions between stickers and pieces
pub mod stickercube;

pub use stickercube::{StickerCube, StickerState, StickerToCubieError};

use crate::ranking::orientation::{digit_sum, in_range};
use crate::ranking::parity::is_odd;
use crate::ranking::permutation::identity;
use crate::TryFromIntToEnumError;
use corner::{lemma_corner_index, lemma_twist_group, Corner, CornerTwist};
use edge::{lemma_edge_index, lemma_flip_group, Edge, EdgeFlip};

verus! {

/// The error of reading a piece off a combination of stickers.
#[derive(Debug, Copy, Clone, PartialEq, Eq, Hash, Structural)]
pub enum StickerToPieceError {
    /// The stickers of a piece did not correspond to a legal piece.
    InvalidPiece,
}

/// The six faces of the cube.
#[derive(Debug, Copy, Clone, PartialEq, Eq, Hash, Structural)]
pub enum Face {
    /// Up face
    U,
    /// Left face
    L,
    /// Front face
    F,
    /// Right face
    R,
    /// Back face
    B,
    /// Down face
    D,
}

/// Every face, at the position of its own index.
pub const FACES: [Face; 6] = [Face::U, Face::L, Face::F, Face::R, Face::B, Face::D];

impl Face {
    /// The index of the face.
    pub open spec fn index(self) -> int {
        self as int
    }

    /// The index of the face.
    pub fn to_index(self) -> (r: usize)
        ensures
            r == self.index(),
            r < 6,
    {
        self as usize
    }

    /// The face with the given index, for an index below 6.
    pub open spec fn from_index(i: int) -> Face {
        FACES[i]
    }
}

impl From<Face> for usize {
    fn from(value: Face) -> (r: usize) {
        value as usize
    }
}

impl FromSpecImpl<Face> for usize {
    open spec fn obeys_from_spec() -> bool {
        true
    }

    open spec fn from_spec(value: Face) -> usize {
        value as usize
    }
}

impl TryFrom<usize> for Face {
    type Error = TryFromIntToEnumError;

    fn try_from(value: usize) -> (r: Result<Self, Self::Error>) {
        if value < 6 {
            Ok(FACES[value])
        } else {
            Err(TryFromIntToEnumError::OutOfBounds)
        }
    }
}

impl TryFromSpecImpl<usize> for Face {
    open spec fn obeys_try_from_spec() -> bool {
        true
    }

    open spec fn try_from_spec(value: usize) -> Result<Self, Self::Error> {
        if value < 6 {
            Ok(Face::from_index(value as int))
        } else {
            Err(TryFromIntToEnumError::OutOfBounds)
        }
    }
}

/// Represents a sticker relative to the starting orientation. Using the standard Rubik's
/// cube colour scheme with white on top and green on front, these stickers would represent:
#[derive(Debug, Copy, Clone, PartialEq, Eq, Hash, Structural)]
pub enum Sticker {
    /// White
    S1,
    /// Orange
    S2,
    /// Green
    S3,
    /// Red
    S4,
    /// Blue
    S5,
    /// Yellow
    S6,
}

/// Every sticker, at the position of its own index: the stickers of the faces of a
/// solved cube, by the index of the face.
pub const STICKERS: [Sticker; 6] = [
    Sticker::S1,
    Sticker::S2,
    Sticker::S3,
    Sticker::S4,
    Sticker::S5,
    Sticker::S6,
];

impl Sticker {
    /// The index of the sticker.
    pub open spec fn index(self) -> int {
        self as int
    }

    /// The index of the sticker.
    pub fn to_index(self) -> (r: usize)
        ensures
            r == self.index(),
            r < 6,
    {
        self as usize
    }

    /// The sticker with the given index, for an index below 6.
    pub open spec fn from_index(i: int) -> Sticker {
        STICKERS[i]
    }
}

/// `FACES` and `STICKERS` list the faces and the stickers by index.
pub proof fn lemma_face_index(f: Face, s: Sticker, i: int)
    ensures
        0 <= f.index() < 6,
        0 <= s.index() < 6,
        Face::from_index(f.index()) == f,
        Sticker::from_index(s.index()) == s,
        0 <= i < 6 ==> Face::from_index(i).index() == i && Sticker::from_index(i).index() == i,
{
}

/// The orientations of the corners of the solved cube.
pub const ORIENTED_CORNERS: [CornerTwist; 8] = [
    CornerTwist::Oriented,
    CornerTwist::Oriented,
    CornerTwist::Oriented,
    CornerTwist::Oriented,
    CornerTwist::Oriented,
    CornerTwist::Oriented,
    CornerTwist::Oriented,
    CornerTwist::Oriented,
];

/// The orientations of the edges of the solved cube.
pub const ORIENTED_EDGES: [EdgeFlip; 12] = [
    EdgeFlip::Oriented,
    EdgeFlip::Oriented,
    EdgeFlip::Oriented,
    EdgeFlip::Oriented,
    EdgeFlip::Oriented,
    EdgeFlip::Oriented,
    EdgeFlip::Oriented,
    EdgeFlip::Oriented,
    EdgeFlip::Oriented,
    EdgeFlip::Oriented,
    EdgeFlip::Oriented,
    EdgeFlip::Oriented,
];

/// The values of a byte sequence.
pub open spec fn digits(s: Seq<u8>) -> Seq<int> {
    Seq::new(s.len(), |i: int| s[i] as int)
}

/// The residues of a sequence of corner twists.
pub open spec fn twist_indices(s: Seq<CornerTwist>) -> Seq<int> {
    Seq::new(s.len(), |i: int| s[i].index())
}

/// The indices of a sequence of corners.
pub open spec fn corner_indices(s: Seq<Corner>) -> Seq<int> {
    Seq::new(s.len(), |i: int| s[i].index())
}

/// The residues of a sequence of edge flips.
pub open spec fn flip_indices(s: Seq<EdgeFlip>) -> Seq<int> {
    Seq::new(s.len(), |i: int| s[i].index())
}

/// The indices of a sequence of edges.
pub open spec fn edge_indices(s: Seq<Edge>) -> Seq<int> {
    Seq::new(s.len(), |i: int| s[i].index())
}

/// The state of the pieces as plain numbers: for each slot, the index of the
/// piece in it and the residue of that piece's orientation.
#[verifier::ext_equal]
pub struct CubieState {
    /// Corner orientation, a residue modulo 3 for each corner slot
    pub co: Seq<int>,
    /// Corner permutation, the index of the corner in each corner slot
    pub cp: Seq<int>,
    /// Edge orientation, a residue modulo 2 for each edge slot
    pub eo: Seq<int>,
    /// Edge permutation, the index of the edge in each edge slot
    pub ep: Seq<int>,
}

impl CubieState {
    /// Whether the state has a piece and an orientation for each slot.
    pub open spec fn well_formed(self) -> bool {
        &&& self.co.len() == 8
        &&& self.cp.len() == 8
        &&& self.eo.len() == 12
        &&& self.ep.len() == 12
        &&& in_range(self.co, 3)
        &&& in_range(self.cp, 8)
        &&& in_range(self.eo, 2)
        &&& in_range(self.ep, 12)
    }

    /// Whether the state is one of a cube that was taken apart and put together in
    /// some way: every corner and every edge is in one slot.
    pub open spec fn is_valid(self) -> bool {
        &&& self.well_formed()
        &&& self.cp.no_duplicates()
        &&& self.ep.no_duplicates()
    }

    /// The sum of the corner orientations, as a residue modulo 3.
    pub open spec fn co_parity(self) -> int {
        digit_sum(self.co) % 3
    }

    /// The sum of the edge orientations, as a residue modulo 2.
    pub open spec fn eo_parity(self) -> int {
        digit_sum(self.eo) % 2
    }

    /// Whether the corner permutation and the edge permutation differ in parity.
    pub open spec fn perm_parity(self) -> bool {
        is_odd(self.cp) != is_odd(self.ep)
    }

    /// Whether the state can be reached from the solved cube by turning faces: the
    /// corner orientations add up to 0 modulo 3, the edge orientations to 0 modulo
    /// 2, and the two permutations have the same parity.
    pub open spec fn is_legal(self) -> bool {
        &&& self.is_valid()
        &&& self.co_parity() == 0
        &&& self.eo_parity() == 0
        &&& !self.perm_parity()
    }

    /// The state of the solved cube.
    pub open spec fn solved() -> CubieState {
        CubieState {
            co: Seq::new(8, |i: int| 0),
            cp: identity(8),
            eo: Seq::new(12, |i: int| 0),
            ep: identity(12),
        }
    }
}

/// An implementation of a Rubik's cube which represents itself using pieces in an array. A Piece
/// has an orientation and a permutation to uniquely identify itself. Note that there exists some
/// CubieCubes which are not solvable (e.g. a corner twist).
#[derive(Debug, Copy, Clone, Eq, Hash)]
pub struct CubieCube {
    /// Corner orientation
    pub co: [CornerTwist; 8],
    /// Corner permutation
    pub cp: [Corner; 8],
    /// Edge orientation
    pub eo: [EdgeFlip; 12],
    /// Edge permutation
    pub ep: [Edge; 12],
}

impl View for CubieCube {
    type V = CubieState;

    open spec fn view(&self) -> CubieState {
        CubieState {
            co: twist_indices(self.co@),
            cp: corner_indices(self.cp@),
            eo: flip_indices(self.eo@),
            ep: edge_indices(self.ep@),
        }
    }
}

impl CubieCube {
    /// The solved cube.
    pub fn solved() -> (r: CubieCube)
        ensures
            r@ == CubieState::solved(),
    {
        let r = CubieCube { co: ORIENTED_CORNERS, cp: Corner::ARRAY, eo: ORIENTED_EDGES, ep: Edge::ARRAY };
        proof {
            assert forall|i: int| 0 <= i < 8 implies r@.cp[i] == i by {
                lemma_corner_index(Corner::UFR, i);
            }
            assert forall|i: int| 0 <= i < 12 implies r@.ep[i] == i by {
                lemma_edge_index(Edge::UF, i);
            }
            assert(r@.co =~= CubieState::solved().co);
            assert(r@.cp =~= CubieState::solved().cp);
            assert(r@.eo =~= CubieState::solved().eo);
            assert(r@.ep =~= CubieState::solved().ep);
        }
        r
    }

    /// Whether every corner and every edge is in one slot.
    pub fn is_valid(&self) -> (r: bool)
        ensures
            r == self@.is_valid(),
    {
        let cp = corners_to_u8(&self.cp);
        let ep = edges_to_u8(&self.ep);
        proof {
            self.lemma_well_formed();
            assert(digits(cp@) =~= self@.cp);
            assert(digits(ep@) =~= self@.ep);
        }
        has_no_duplicates(&cp) && has_no_duplicates(&ep)
    }

    /// The state of any cube has a piece and an orientation for each slot.
    pub proof fn lemma_well_formed(&self)
        ensures
            self@.well_formed(),
    {
    }

    /// Two cubes with the same state are the same cube.
    pub proof fn lemma_same_state(&self, other: &CubieCube)
        requires
            self@ == other@,
        ensures
            *self == *other,
    {
        assert forall|i: int| 0 <= i < 8 implies self.co@[i] == other.co@[i] && self.cp@[i]
            == other.cp@[i] by {
            assert(self@.co[i] == self.co@[i].index());
            assert(other@.co[i] == other.co@[i].index());
            assert(self@.cp[i] == self.cp@[i].index());
            assert(other@.cp[i] == other.cp@[i].index());
            lemma_twist_group(self.co@[i], other.co@[i], other.co@[i]);
            lemma_twist_group(other.co@[i], other.co@[i], other.co@[i]);
            lemma_corner_index(self.cp@[i], 0);
            lemma_corner_index(other.cp@[i], 0);
        }
        assert forall|i: int| 0 <= i < 12 implies self.eo@[i] == other.eo@[i] && self.ep@[i]
            == other.ep@[i] by {
            assert(self@.eo[i] == self.eo@[i].index());
            assert(other@.eo[i] == other.eo@[i].index());
            assert(self@.ep[i] == self.ep@[i].index());
            assert(other@.ep[i] == other.ep@[i].index());
            lemma_flip_group(self.eo@[i], other.eo@[i], other.eo@[i]);
            lemma_flip_group(other.eo@[i], other.eo@[i], other.eo@[i]);
            lemma_edge_index(self.ep@[i], 0);
            lemma_edge_index(other.ep@[i], 0);
        }
        assert(self.co =~= other.co);
        assert(self.cp =~= other.cp);
        assert(self.eo =~= other.eo);
        assert(self.ep =~= other.ep);
    }
}

/// Whether no byte occurs twice in `arr`.
pub fn has_no_duplicates<const COUNT: usize>(arr: &[u8; COUNT]) -> (r: bool)
    ensures
        r == digits(arr@).no_duplicates(),
{
    let mut i: usize = 0;
    while i < COUNT
        invariant
            i <= COUNT,
            forall|a: int, b: int| 0 <= a < b < i ==> arr[a] != arr[b],
        decreases COUNT - i,
    {
        let mut j: usize = 0;
        while j < i
            invariant
                j <= i < COUNT,
                forall|a: int| 0 <= a < j ==> arr[a] != arr[i as int],
            decreases i - j,
        {
            if arr[j] == arr[i] {
                proof {
                    assert(digits(arr@)[j as int] == digits(arr@)[i as int]);
                }
                return false;
            }
            j += 1;
        }
        i += 1;
    }
    proof {
        let d = digits(arr@);
        assert forall|a: int, b: int| 0 <= a < d.len() && 0 <= b < d.len() && a != b implies d[a]
            != d[b] by {
            if a < b {
                assert(arr[a] != arr[b]);
            } else {
                assert(arr[b] != arr[a]);
            }
        }
    }
    true
}

impl PartialEq for CubieCube {
    fn eq(&self, other: &CubieCube) -> (r: bool) {
        let mut same = true;
        let mut i: usize = 0;
        while i < 8
            invariant
                i <= 8,
                same <==> forall|j: int|
                    0 <= j < i ==> self.co[j] == other.co[j] && self.cp[j] == other.cp[j],
            decreases 8 - i,
        {
            if self.co[i] != other.co[i] || self.cp[i] != other.cp[i] {
                same = false;
            }
            i += 1;
        }
        let mut k: usize = 0;
        while k < 12
            invariant
                k <= 12,
                same <==> (forall|j: int|
                    0 <= j < 8 ==> self.co[j] == other.co[j] && self.cp[j] == other.cp[j])
                    && (forall|j: int|
                    0 <= j < k ==> self.eo[j] == other.eo[j] && self.ep[j] == other.ep[j]),
            decreases 12 - k,
        {
            if self.eo[k] != other.eo[k] || self.ep[k] != other.ep[k] {
                same = false;
            }
            k += 1;
        }
        proof {
            if same {
                assert(self@ =~= other@);
            } else {
                if exists|j: int|
                    0 <= j < 8 && !(self.co[j] == other.co[j] && self.cp[j] == other.cp[j]) {
                    let j = choose|j: int|
                        0 <= j < 8 && !(self.co[j] == other.co[j] && self.cp[j] == other.cp[j]);
                    assert(self@.co[j] == self.co[j].index());
                    assert(other@.co[j] == other.co[j].index());
                    assert(self@.cp[j] == self.cp[j].index());
                    assert(other@.cp[j] == other.cp[j].index());
                } else {
                    let j = choose|j: int|
                        0 <= j < 12 && !(self.eo[j] == other.eo[j] && self.ep[j] == other.ep[j]);
                    assert(self@.eo[j] == self.eo[j].index());
                    assert(other@.eo[j] == other.eo[j].index());
                    assert(self@.ep[j] == self.ep[j].index());
                    assert(other@.ep[j] == other.ep[j].index());
                }
            }
        }
        same
    }
}

impl PartialEqSpecImpl for CubieCube {
    open spec fn obeys_eq_spec() -> bool {
        true
    }

    open spec fn eq_spec(&self, other: &CubieCube) -> bool {
        self@ == other@
    }
}

/// The residues of corner twists, as bytes.
pub fn corner_twists_to_u8(arr: &[CornerTwist; 8]) -> (r: [u8; 8])
    ensures
        digits(r@) == twist_indices(arr@),
{
    let mut r = [0u8;8];
    for i in 0..8
        invariant
            forall|j: int| 0 <= j < i ==> r[j] == arr[j].index(),
    {
        r[i] = arr[i] as u8;
    }
    assert(digits(r@) =~= twist_indices(arr@));
    r
}

/// The indices of corners, as bytes.
pub fn corners_to_u8(arr: &[Corner; 8]) -> (r: [u8; 8])
    ensures
        digits(r@) == corner_indices(arr@),
{
    let mut r = [0u8;8];
    for i in 0..8
        invariant
            forall|j: int| 0 <= j < i ==> r[j] == arr[j].index(),
    {
        r[i] = arr[i] as u8;
    }
    assert(digits(r@) =~= corner_indices(arr@));
    r
}

/// The residues of edge flips, as bytes.
pub fn edge_flips_to_u8(arr: &[EdgeFlip; 12]) -> (r: [u8; 12])
    ensures
        digits(r@) == flip_indices(arr@),
{
    let mut r = [0u8;12];
    for i in 0..12
        invariant
            forall|j: int| 0 <= j < i ==> r[j] == arr[j].index(),
    {
        r[i] = arr[i] as u8;
    }
    assert(digits(r@) =~= flip_indices(arr@));
    r
}

/// The indices of edges, as bytes.
pub fn edges_to_u8(arr: &[Edge; 12]) -> (r: [u8; 12])
    ensures
        digits(r@) == edge_indices(arr@),
{
    let mut r = [0u8;12];
    for i in 0..12
        invariant
            forall|j: int| 0 <= j < i ==> r[j] == arr[j].index(),
    {
        r[i] = arr[i] as u8;
    }
    assert(digits(r@) =~= edge_indices(arr@));
    r
}

/// The corner twists with the given residues.
pub fn u8_to_corner_twists(arr: &[u8; 8]) -> (r: [CornerTwist; 8])
    requires
        in_range(digits(arr@), 3),
    ensures
        twist_indices(r@) == digits(arr@),
{
    let mut r = [CornerTwist::Oriented;8];
    for i in 0..8
        invariant
            in_range(digits(arr@), 3),
            forall|j: int| 0 <= j < i ==> r[j].index() == arr[j],
    {
        assert(digits(arr@)[i as int] < 3);
        r[i] = CornerTwist::try_from(arr[i]).unwrap();
    }
    assert(twist_indices(r@) =~= digits(arr@));
    r
}

/// The corners with the given indices.
pub fn u8_to_corners(arr: &[u8; 8]) -> (r: [Corner; 8])
    requires
        in_range(digits(arr@), 8),
    ensures
        corner_indices(r@) == digits(arr@),
{
    let mut r = [Corner::UFR;8];
    for i in 0..8
        invariant
            in_range(digits(arr@), 8),
            forall|j: int| 0 <= j < i ==> r[j].index() == arr[j],
    {
        assert(digits(arr@)[i as int] < 8);
        r[i] = Corner::try_from(arr[i]).unwrap();
    }
    assert(corner_indices(r@) =~= digits(arr@));
    r
}

/// The edge flips with the given residues.
pub fn u8_to_edge_flips(arr: &[u8; 12]) -> (r: [EdgeFlip; 12])
    requires
        in_range(digits(arr@), 2),
    ensures
        flip_indices(r@) == digits(arr@),
{
    let mut r = [EdgeFlip::Oriented;12];
    for i in 0..12
        invariant
            in_range(digits(arr@), 2),
            forall|j: int| 0 <= j < i ==> r[j].index() == arr[j],
    {
        assert(digits(arr@)[i as int] < 2);
        r[i] = EdgeFlip::try_from(arr[i]).unwrap();
    }
    assert(flip_indices(r@) =~= digits(arr@));
    r
}

/// The edges with the given indices.
pub fn u8_to_edges(arr: &[u8; 12]) -> (r: [Edge; 12])
    requires
        in_range(digits(arr@), 12),
    ensures
        edge_indices(r@) == digits(arr@),
{
    let mut r = [Edge::UF;12];
    for i in 0..12
        invariant
            in_range(digits(arr@), 12),
            forall|j: int| 0 <= j < i ==> r[j].index() == arr[j],
    {
        assert(digits(arr@)[i as int] < 12);
        r[i] = Edge::try_from(arr[i]).unwrap();
    }
    assert(edge_indices(r@) =~= digits(arr@));
    r
}

} // verus!
