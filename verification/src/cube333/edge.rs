//! Edge pieces, the flip an edge can carry, and the 24 edge facelets.

use super::{Face, StickerToPieceError};
use crate::TryFromIntToEnumError;
use vstd::prelude::*;
use vstd::std_specs::convert::{FromSpecImpl, TryFromSpecImpl};
use vstd::string::StringExecFns;

verus! {

/// The twelve edge pieces, which double as the names of the twelve edge slots.
/// The declaration order fixes the slot indices 0..12.
#[derive(Debug, Copy, Clone, PartialEq, Eq, Hash, Structural)]
#[allow(missing_docs)]
pub enum Edge {
    UF,
    UL,
    UB,
    UR,
    DF,
    DL,
    DB,
    DR,
    FR,
    FL,
    BL,
    BR,
}

impl Edge {
    /// Every edge, at the position of its own index.
    pub const ARRAY: [Edge; 12] = [
        Edge::UF,
        Edge::UL,
        Edge::UB,
        Edge::UR,
        Edge::DF,
        Edge::DL,
        Edge::DB,
        Edge::DR,
        Edge::FR,
        Edge::FL,
        Edge::BL,
        Edge::BR,
    ];

    /// The name of every edge, by the faces it touches.
    pub const NAMES: [&'static str; 12] = [
        "UF",
        "UL",
        "UB",
        "UR",
        "DF",
        "DL",
        "DB",
        "DR",
        "FR",
        "FL",
        "BL",
        "BR",
    ];

    /// The name of the edge as text.
    pub open spec fn spec_name(self) -> Seq<char> {
        Edge::NAMES[self.index()]@
    }

    /// The name of the edge: the letters of the two faces it touches.
    pub fn name(self) -> (r: &'static str)
        ensures
            r@ == self.spec_name(),
    {
        Edge::NAMES[self.to_index()]
    }

    /// The name of the edge, as a string of its own.
    pub fn to_string(&self) -> (r: String)
        ensures
            r@ == self.spec_name(),
    {
        String::from_str(self.name())
    }

    /// The index of the edge, and of its slot.
    pub open spec fn index(self) -> int {
        self as int
    }

    /// The index of the edge.
    pub fn to_index(self) -> (r: usize)
        ensures
            r == self.index(),
            r < 12,
    {
        self as usize
    }

    /// The edge with the given index, for an index below 12.
    pub open spec fn from_index(i: int) -> Edge {
        Edge::ARRAY[i]
    }
}

impl From<Edge> for u8 {
    fn from(value: Edge) -> (r: u8) {
        value as u8
    }
}

impl FromSpecImpl<Edge> for u8 {
    open spec fn obeys_from_spec() -> bool {
        true
    }

    open spec fn from_spec(value: Edge) -> u8 {
        value as u8
    }
}

impl TryFrom<u8> for Edge {
    type Error = TryFromIntToEnumError;

    fn try_from(value: u8) -> (r: Result<Self, Self::Error>) {
        if value < 12 {
            Ok(Edge::ARRAY[value as usize])
        } else {
            Err(TryFromIntToEnumError::OutOfBounds)
        }
    }
}

impl TryFromSpecImpl<u8> for Edge {
    open spec fn obeys_try_from_spec() -> bool {
        true
    }

    open spec fn try_from_spec(value: u8) -> Result<Self, Self::Error> {
        if value < 12 {
            Ok(Edge::from_index(value as int))
        } else {
            Err(TryFromIntToEnumError::OutOfBounds)
        }
    }
}

/// `Edge::ARRAY` lists the edges by index: converting an index to an edge and back gives
/// the index again, and the other way round.
pub proof fn lemma_edge_index(e: Edge, i: int)
    ensures
        0 <= e.index() < 12,
        Edge::from_index(e.index()) == e,
        0 <= i < 12 ==> Edge::from_index(i).index() == i,
{
}

/// Whether an edge sits in its slot the right way round: an element of Z/2.
#[derive(Debug, Copy, Clone, PartialEq, Eq, Hash, Structural)]
#[allow(missing_docs)]
pub enum EdgeFlip {
    Oriented,
    Flipped,
}

/// Both flips, each at the position of its own index.
pub const EDGE_FLIPS: [EdgeFlip; 2] = [EdgeFlip::Oriented, EdgeFlip::Flipped];

impl EdgeFlip {
    /// The index of the flip: the flip as a residue modulo 2.
    pub open spec fn index(self) -> int {
        self as int
    }

    /// The index of the flip: the flip as a residue modulo 2.
    pub fn to_index(self) -> (r: usize)
        ensures
            r == self.index(),
            r < 2,
    {
        self as usize
    }

    /// The flip with the given index, for an index below 2.
    pub open spec fn from_index(i: int) -> EdgeFlip {
        EDGE_FLIPS[i]
    }

    /// The sum of two flips in Z/2.
    pub open spec fn spec_flip_by(self, other: EdgeFlip) -> EdgeFlip {
        EdgeFlip::from_index((self.index() + other.index()) % 2)
    }

    /// Composes two flips: the group operation of Z/2, with `Oriented` as identity.
    pub fn flip_by(self, other: EdgeFlip) -> (r: EdgeFlip)
        ensures
            r == self.spec_flip_by(other),
            r.index() == (self.index() + other.index()) % 2,
    {
        EDGE_FLIPS[((self as u8 + other as u8) % 2) as usize]
    }
}

impl From<EdgeFlip> for u8 {
    fn from(value: EdgeFlip) -> (r: u8) {
        value as u8
    }
}

impl FromSpecImpl<EdgeFlip> for u8 {
    open spec fn obeys_from_spec() -> bool {
        true
    }

    open spec fn from_spec(value: EdgeFlip) -> u8 {
        value as u8
    }
}

impl TryFrom<u8> for EdgeFlip {
    type Error = TryFromIntToEnumError;

    fn try_from(value: u8) -> (r: Result<Self, Self::Error>) {
        if value < 2 {
            Ok(EDGE_FLIPS[value as usize])
        } else {
            Err(TryFromIntToEnumError::OutOfBounds)
        }
    }
}

impl TryFromSpecImpl<u8> for EdgeFlip {
    open spec fn obeys_try_from_spec() -> bool {
        true
    }

    open spec fn try_from_spec(value: u8) -> Result<Self, Self::Error> {
        if value < 2 {
            Ok(EdgeFlip::from_index(value as int))
        } else {
            Err(TryFromIntToEnumError::OutOfBounds)
        }
    }
}

/// Flips form a commutative group under `flip_by`, with `Oriented` as identity and
/// every flip its own inverse.
pub proof fn lemma_flip_group(a: EdgeFlip, b: EdgeFlip, c: EdgeFlip)
    ensures
        0 <= a.index() < 2,
        EdgeFlip::from_index(a.index()) == a,
        a.spec_flip_by(EdgeFlip::Oriented) == a,
        EdgeFlip::Oriented.spec_flip_by(a) == a,
        a.spec_flip_by(b) == b.spec_flip_by(a),
        a.spec_flip_by(b).spec_flip_by(c) == a.spec_flip_by(b.spec_flip_by(c)),
        a.spec_flip_by(a) == EdgeFlip::Oriented,
{
}

/// The 24 edge facelets. A facelet is named by its own face first, then by the other
/// face of its piece. The declaration order fixes the facelet indices 0..24.
#[derive(Debug, Copy, Clone, PartialEq, Eq, Hash, Structural)]
#[allow(missing_docs)]
pub enum EdgePos {
    UB,
    UR,
    UF,
    UL,
    LU,
    LF,
    LD,
    LB,
    FU,
    FR,
    FD,
    FL,
    RU,
    RB,
    RD,
    RF,
    BU,
    BL,
    BD,
    BR,
    DF,
    DR,
    DB,
    DL,
}

/// Every edge facelet, at the position of its own index.
pub const EDGE_POSITIONS: [EdgePos; 24] = [
    EdgePos::UB, EdgePos::UR, EdgePos::UF, EdgePos::UL,
    EdgePos::LU, EdgePos::LF, EdgePos::LD, EdgePos::LB,
    EdgePos::FU, EdgePos::FR, EdgePos::FD, EdgePos::FL,
    EdgePos::RU, EdgePos::RB, EdgePos::RD, EdgePos::RF,
    EdgePos::BU, EdgePos::BL, EdgePos::BD, EdgePos::BR,
    EdgePos::DF, EdgePos::DR, EdgePos::DB, EdgePos::DL,
];

/// For each edge facelet, the piece it belongs to.
pub const EDGE_POS_PIECE: [Edge; 24] = [
    Edge::UB, Edge::UR, Edge::UF, Edge::UL,
    Edge::UL, Edge::FL, Edge::DL, Edge::BL,
    Edge::UF, Edge::FR, Edge::DF, Edge::FL,
    Edge::UR, Edge::BR, Edge::DR, Edge::FR,
    Edge::UB, Edge::BL, Edge::DB, Edge::BR,
    Edge::DF, Edge::DR, Edge::DB, Edge::DL,
];

/// For each edge facelet, the flip of an edge when this facelet of the edge shows on
/// the leading facelet of its slot.
pub const EDGE_POS_FLIP: [EdgeFlip; 24] = [
    EdgeFlip::Oriented, EdgeFlip::Oriented, EdgeFlip::Oriented, EdgeFlip::Oriented,
    EdgeFlip::Flipped, EdgeFlip::Flipped, EdgeFlip::Flipped, EdgeFlip::Flipped,
    EdgeFlip::Flipped, EdgeFlip::Oriented, EdgeFlip::Flipped, EdgeFlip::Oriented,
    EdgeFlip::Flipped, EdgeFlip::Flipped, EdgeFlip::Flipped, EdgeFlip::Flipped,
    EdgeFlip::Flipped, EdgeFlip::Oriented, EdgeFlip::Flipped, EdgeFlip::Oriented,
    EdgeFlip::Oriented, EdgeFlip::Oriented, EdgeFlip::Oriented, EdgeFlip::Oriented,
];

/// For each edge facelet, its own face followed by the face of the other facelet of
/// the slot.
pub const EDGE_POS_FACES: [(Face, Face); 24] = [
    (Face::U, Face::B), (Face::U, Face::R), (Face::U, Face::F), (Face::U, Face::L),
    (Face::L, Face::U), (Face::L, Face::F), (Face::L, Face::D), (Face::L, Face::B),
    (Face::F, Face::U), (Face::F, Face::R), (Face::F, Face::D), (Face::F, Face::L),
    (Face::R, Face::U), (Face::R, Face::B), (Face::R, Face::D), (Face::R, Face::F),
    (Face::B, Face::U), (Face::B, Face::L), (Face::B, Face::D), (Face::B, Face::R),
    (Face::D, Face::F), (Face::D, Face::R), (Face::D, Face::B), (Face::D, Face::L),
];

/// For each edge and flip, the facelet of the edge that shows on the leading facelet
/// of its slot: the one on the U or D face, or else the one on the F or B face.
pub const EDGE_FLIP_POS: [[EdgePos; 2]; 12] = [
    [EdgePos::UF, EdgePos::FU],
    [EdgePos::UL, EdgePos::LU],
    [EdgePos::UB, EdgePos::BU],
    [EdgePos::UR, EdgePos::RU],
    [EdgePos::DF, EdgePos::FD],
    [EdgePos::DL, EdgePos::LD],
    [EdgePos::DB, EdgePos::BD],
    [EdgePos::DR, EdgePos::RD],
    [EdgePos::FR, EdgePos::RF],
    [EdgePos::FL, EdgePos::LF],
    [EdgePos::BL, EdgePos::LB],
    [EdgePos::BR, EdgePos::RB],
];

impl EdgePos {
    /// The index of the facelet.
    pub open spec fn index(self) -> int {
        self as int
    }

    /// The index of the facelet.
    pub fn to_index(self) -> (r: usize)
        ensures
            r == self.index(),
            r < 24,
    {
        self as usize
    }

    /// The facelet with the given index, for an index below 24.
    pub open spec fn from_index(i: int) -> EdgePos {
        EDGE_POSITIONS[i]
    }

    /// The two faces of the slot, this facelet's own face first.
    #[verifier::opaque]
    pub open spec fn spec_faces(self) -> (Face, Face) {
        EDGE_POS_FACES[self.index()]
    }

    /// The face this facelet lies on.
    pub open spec fn spec_face(self) -> Face {
        self.spec_faces().0
    }

    /// The piece, or slot, this facelet belongs to.
    #[verifier::opaque]
    pub open spec fn spec_piece(self) -> Edge {
        EDGE_POS_PIECE[self.index()]
    }

    /// The flip of an edge of which this facelet shows on the leading facelet of its
    /// slot.
    #[verifier::opaque]
    pub open spec fn spec_fb_orientation(self) -> EdgeFlip {
        EDGE_POS_FLIP[self.index()]
    }

    /// The facelet of `piece` that shows on the leading facelet of its slot when the
    /// piece is flipped by `flip`.
    #[verifier::opaque]
    pub open spec fn spec_of_piece(piece: Edge, flip: EdgeFlip) -> EdgePos {
        EDGE_FLIP_POS[piece.index()][flip.index()]
    }

    /// The other facelet of the same slot.
    pub open spec fn spec_flip(self) -> EdgePos {
        EdgePos::spec_of_piece(
            self.spec_piece(),
            self.spec_fb_orientation().spec_flip_by(EdgeFlip::Flipped),
        )
    }

    /// The facelet that lies on `f1` and whose slot touches `f2`, if there is one.
    pub open spec fn spec_from_faces(f1: Face, f2: Face) -> Option<EdgePos> {
        if exists|p: EdgePos| p.spec_faces() == (f1, f2) {
            Some(choose|p: EdgePos| p.spec_faces() == (f1, f2))
        } else {
            None
        }
    }

    /// The face this facelet lies on.
    pub fn face(self) -> (r: Face)
        ensures
            r == self.spec_face(),
    {
        self.faces().0
    }

    /// The two faces of the slot, this facelet's own face first.
    pub fn faces(self) -> (r: (Face, Face))
        ensures
            r == self.spec_faces(),
    {
        proof {
            reveal(EdgePos::spec_faces);
            reveal(EdgePos::spec_piece);
            reveal(EdgePos::spec_fb_orientation);
            reveal(EdgePos::spec_of_piece);
        }
        EDGE_POS_FACES[self as usize]
    }

    /// The facelet whose faces are those of this one, exchanged.
    pub fn flip(self) -> (r: EdgePos)
        ensures
            r == self.spec_flip(),
            r.spec_faces() == (self.spec_faces().1, self.spec_faces().0),
            r.spec_piece() == self.spec_piece(),
    {
        proof {
            reveal(EdgePos::spec_faces);
            reveal(EdgePos::spec_piece);
            reveal(EdgePos::spec_fb_orientation);
            reveal(EdgePos::spec_of_piece);
        }
        let flip = self.fb_orientation().flip_by(EdgeFlip::Flipped);
        EDGE_FLIP_POS[self.piece() as usize][flip as usize]
    }

    /// Returns the edge piece that an edge sticker is on.
    pub fn piece(self) -> (r: Edge)
        ensures
            r == self.spec_piece(),
    {
        proof {
            reveal(EdgePos::spec_faces);
            reveal(EdgePos::spec_piece);
            reveal(EdgePos::spec_fb_orientation);
            reveal(EdgePos::spec_of_piece);
        }
        EDGE_POS_PIECE[self as usize]
    }

    /// Returns the orientation of a sticker with respect to the F/B axis.
    pub fn fb_orientation(self) -> (r: EdgeFlip)
        ensures
            r == self.spec_fb_orientation(),
    {
        proof {
            reveal(EdgePos::spec_faces);
            reveal(EdgePos::spec_piece);
            reveal(EdgePos::spec_fb_orientation);
            reveal(EdgePos::spec_of_piece);
        }
        EDGE_POS_FLIP[self as usize]
    }
}

impl From<Edge> for EdgePos {
    fn from(value: Edge) -> (r: EdgePos) {
        proof {
            reveal(EdgePos::spec_faces);
            reveal(EdgePos::spec_piece);
            reveal(EdgePos::spec_fb_orientation);
            reveal(EdgePos::spec_of_piece);
        }
        EDGE_FLIP_POS[value as usize][0]
    }
}

impl FromSpecImpl<Edge> for EdgePos {
    open spec fn obeys_from_spec() -> bool {
        true
    }

    open spec fn from_spec(value: Edge) -> EdgePos {
        EdgePos::spec_of_piece(value, EdgeFlip::Oriented)
    }
}

impl From<(Edge, EdgeFlip)> for EdgePos {
    fn from(value: (Edge, EdgeFlip)) -> (r: EdgePos) {
        proof {
            reveal(EdgePos::spec_faces);
            reveal(EdgePos::spec_piece);
            reveal(EdgePos::spec_fb_orientation);
            reveal(EdgePos::spec_of_piece);
        }
        EDGE_FLIP_POS[value.0 as usize][value.1 as usize]
    }
}

impl FromSpecImpl<(Edge, EdgeFlip)> for EdgePos {
    open spec fn obeys_from_spec() -> bool {
        true
    }

    open spec fn from_spec(value: (Edge, EdgeFlip)) -> EdgePos {
        EdgePos::spec_of_piece(value.0, value.1)
    }
}

impl From<EdgePos> for (Face, Face) {
    fn from(value: EdgePos) -> (r: (Face, Face)) {
        value.faces()
    }
}

impl FromSpecImpl<EdgePos> for (Face, Face) {
    open spec fn obeys_from_spec() -> bool {
        true
    }

    open spec fn from_spec(value: EdgePos) -> (Face, Face) {
        value.spec_faces()
    }
}

impl From<EdgePos> for usize {
    fn from(value: EdgePos) -> (r: usize) {
        value as usize
    }
}

impl FromSpecImpl<EdgePos> for usize {
    open spec fn obeys_from_spec() -> bool {
        true
    }

    open spec fn from_spec(value: EdgePos) -> usize {
        value as usize
    }
}

impl From<EdgePos> for Face {
    fn from(value: EdgePos) -> (r: Face) {
        proof {
            reveal(EdgePos::spec_faces);
            reveal(EdgePos::spec_piece);
            reveal(EdgePos::spec_fb_orientation);
            reveal(EdgePos::spec_of_piece);
        }
        value.face()
    }
}

impl FromSpecImpl<EdgePos> for Face {
    open spec fn obeys_from_spec() -> bool {
        true
    }

    open spec fn from_spec(value: EdgePos) -> Face {
        value.spec_face()
    }
}

impl TryFrom<(Face, Face)> for EdgePos {
    type Error = StickerToPieceError;

    fn try_from(value: (Face, Face)) -> (r: Result<EdgePos, Self::Error>) {
        let (f1, f2) = value;
        let mut i: usize = 0;
        while i < 24
            invariant
                i <= 24,
                f1 == value.0,
                f2 == value.1,
                forall|j: int| 0 <= j < i ==> EdgePos::from_index(j).spec_faces() != (f1, f2),
            decreases 24 - i,
        {
            let p = EDGE_POSITIONS[i];
            let (g1, g2) = p.faces();
            if g1 == f1 && g2 == f2 {
                proof {
                    assert(p.spec_faces() == (f1, f2));
                    lemma_edge_faces_injective(p, choose|q: EdgePos| q.spec_faces() == (f1, f2));
                }
                return Ok(p);
            }
            i += 1;
        }
        proof {
            assert forall|q: EdgePos| q.spec_faces() != (f1, f2) by {
                lemma_edge_pos_index(q, 0);
            }
        }
        Err(StickerToPieceError::InvalidPiece)
    }
}

impl TryFromSpecImpl<(Face, Face)> for EdgePos {
    open spec fn obeys_try_from_spec() -> bool {
        true
    }

    open spec fn try_from_spec(value: (Face, Face)) -> Result<Self, Self::Error> {
        match EdgePos::spec_from_faces(value.0, value.1) {
            Some(p) => Ok(p),
            None => Err(StickerToPieceError::InvalidPiece),
        }
    }
}

/// `EDGE_POSITIONS` lists the facelets by index.
pub proof fn lemma_edge_pos_index(p: EdgePos, i: int)
    ensures
        0 <= p.index() < 24,
        EdgePos::from_index(p.index()) == p,
        0 <= i < 24 ==> EdgePos::from_index(i).index() == i,
{
}

/// No two edge facelets read the same pair of faces.
pub proof fn lemma_edge_faces_injective(p: EdgePos, q: EdgePos)
    ensures
        p.spec_faces() == q.spec_faces() ==> p == q,
{
    reveal(EdgePos::spec_faces);
    reveal(EdgePos::spec_piece);
    reveal(EdgePos::spec_fb_orientation);
    reveal(EdgePos::spec_of_piece);
}

/// Facelets correspond one to one to pairs of piece and flip, and the two facelets
/// of a slot read the same faces in opposite order.
pub proof fn lemma_edge_pos_bijection(p: EdgePos, e: Edge, f: EdgeFlip)
    ensures
        EdgePos::spec_of_piece(p.spec_piece(), p.spec_fb_orientation()) == p,
        EdgePos::spec_of_piece(e, f).spec_piece() == e,
        EdgePos::spec_of_piece(e, f).spec_fb_orientation() == f,
        p.spec_flip().spec_piece() == p.spec_piece(),
        p.spec_flip().spec_flip() == p,
        p.spec_flip() != p,
        p.spec_flip().spec_faces() == (p.spec_faces().1, p.spec_faces().0),
{
    reveal(EdgePos::spec_faces);
    reveal(EdgePos::spec_piece);
    reveal(EdgePos::spec_fb_orientation);
    reveal(EdgePos::spec_of_piece);
}

} // verus!
