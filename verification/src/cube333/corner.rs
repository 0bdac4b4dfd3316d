//! Corner pieces, the twist a corner can carry, and the 24 corner facelets.

use super::{Face, StickerToPieceError};
use crate::TryFromIntToEnumError;
use vstd::prelude::*;
use vstd::std_specs::convert::{FromSpecImpl, TryFromSpecImpl};
use vstd::string::StringExecFns;

verus! {

/// The eight corner pieces, which double as the names of the eight corner slots.
/// The declaration order fixes the slot indices 0..8.
#[derive(Debug, Copy, Clone, PartialEq, Eq, Hash, Structural)]
#[allow(missing_docs)]
pub enum Corner {
    UFR,
    UFL,
    UBL,
    UBR,
    DFR,
    DFL,
    DBL,
    DBR,
}

impl Corner {
    /// Every corner, at the position of its own index.
    pub const ARRAY: [Corner; 8] = [
        Corner::UFR,
        Corner::UFL,
        Corner::UBL,
        Corner::UBR,
        Corner::DFR,
        Corner::DFL,
        Corner::DBL,
        Corner::DBR,
    ];

    /// The name of every corner, by the faces it touches.
    pub const NAMES: [&'static str; 8] = ["UFR", "UFL", "UBL", "UBR", "DFR", "DFL", "DBL", "DBR"];

    /// The name of the corner as text.
    pub open spec fn spec_name(self) -> Seq<char> {
        Corner::NAMES[self.index()]@
    }

    /// The name of the corner: the letters of the three faces it touches.
    pub fn name(self) -> (r: &'static str)
        ensures
            r@ == self.spec_name(),
    {
        Corner::NAMES[self.to_index()]
    }

    /// The name of the corner, as a string of its own.
    pub fn to_string(&self) -> (r: String)
        ensures
            r@ == self.spec_name(),
    {
        String::from_str(self.name())
    }

    /// The index of the corner, and of its slot.
    pub open spec fn index(self) -> int {
        self as int
    }

    /// The index of the corner.
    pub fn to_index(self) -> (r: usize)
        ensures
            r == self.index(),
            r < 8,
    {
        self as usize
    }

    /// The corner with the given index, for an index below 8.
    pub open spec fn from_index(i: int) -> Corner {
        Corner::ARRAY[i]
    }
}

impl From<Corner> for u8 {
    fn from(value: Corner) -> (r: u8) {
        value as u8
    }
}

impl FromSpecImpl<Corner> for u8 {
    open spec fn obeys_from_spec() -> bool {
        true
    }

    open spec fn from_spec(value: Corner) -> u8 {
        value as u8
    }
}

impl TryFrom<u8> for Corner {
    type Error = TryFromIntToEnumError;

    fn try_from(value: u8) -> (r: Result<Self, Self::Error>) {
        if value < 8 {
            Ok(Corner::ARRAY[value as usize])
        } else {
            Err(TryFromIntToEnumError::OutOfBounds)
        }
    }
}

impl TryFromSpecImpl<u8> for Corner {
    open spec fn obeys_try_from_spec() -> bool {
        true
    }

    open spec fn try_from_spec(value: u8) -> Result<Self, Self::Error> {
        if value < 8 {
            Ok(Corner::from_index(value as int))
        } else {
            Err(TryFromIntToEnumError::OutOfBounds)
        }
    }
}

/// `Corner::ARRAY` lists the corners by index: converting an index to a corner and back
/// gives the index again, and the other way round.
pub proof fn lemma_corner_index(c: Corner, i: int)
    ensures
        0 <= c.index() < 8,
        Corner::from_index(c.index()) == c,
        0 <= i < 8 ==> Corner::from_index(i).index() == i,
{
}

/// The twist of a corner about the axis through it: an element of Z/3.
#[derive(Debug, Copy, Clone, PartialEq, Eq, Hash, Structural)]
#[allow(missing_docs)]
pub enum CornerTwist {
    Oriented,
    Clockwise,
    AntiClockwise,
}

/// Every twist, at the position of its own index.
pub const CORNER_TWISTS: [CornerTwist; 3] = [
    CornerTwist::Oriented,
    CornerTwist::Clockwise,
    CornerTwist::AntiClockwise,
];

impl CornerTwist {
    /// The index of the twist: the twist as a residue modulo 3.
    pub open spec fn index(self) -> int {
        self as int
    }

    /// The index of the twist: the twist as a residue modulo 3.
    pub fn to_index(self) -> (r: usize)
        ensures
            r == self.index(),
            r < 3,
    {
        self as usize
    }

    /// The twist with the given index, for an index below 3.
    pub open spec fn from_index(i: int) -> CornerTwist {
        CORNER_TWISTS[i]
    }

    /// The sum of two twists in Z/3.
    pub open spec fn spec_twist_by(self, other: CornerTwist) -> CornerTwist {
        CornerTwist::from_index((self.index() + other.index()) % 3)
    }

    /// Composes two twists: the group operation of Z/3, with `Oriented` as identity.
    pub fn twist_by(self, other: CornerTwist) -> (r: CornerTwist)
        ensures
            r == self.spec_twist_by(other),
            r.index() == (self.index() + other.index()) % 3,
    {
        CORNER_TWISTS[((self as u8 + other as u8) % 3) as usize]
    }

    /// The twist that undoes this one.
    pub fn inverse(self) -> (r: CornerTwist)
        ensures
            r.index() == (3 - self.index()) % 3,
            self.spec_twist_by(r) == CornerTwist::Oriented,
    {
        CORNER_TWISTS[((3 - self as u8) % 3) as usize]
    }
}

impl From<CornerTwist> for u8 {
    fn from(value: CornerTwist) -> (r: u8) {
        value as u8
    }
}

impl FromSpecImpl<CornerTwist> for u8 {
    open spec fn obeys_from_spec() -> bool {
        true
    }

    open spec fn from_spec(value: CornerTwist) -> u8 {
        value as u8
    }
}

impl TryFrom<u8> for CornerTwist {
    type Error = TryFromIntToEnumError;

    fn try_from(value: u8) -> (r: Result<Self, Self::Error>) {
        if value < 3 {
            Ok(CORNER_TWISTS[value as usize])
        } else {
            Err(TryFromIntToEnumError::OutOfBounds)
        }
    }
}

impl TryFromSpecImpl<u8> for CornerTwist {
    open spec fn obeys_try_from_spec() -> bool {
        true
    }

    open spec fn try_from_spec(value: u8) -> Result<Self, Self::Error> {
        if value < 3 {
            Ok(CornerTwist::from_index(value as int))
        } else {
            Err(TryFromIntToEnumError::OutOfBounds)
        }
    }
}

/// Twists form a commutative group under `twist_by`, with `Oriented` as identity.
pub proof fn lemma_twist_group(a: CornerTwist, b: CornerTwist, c: CornerTwist)
    ensures
        0 <= a.index() < 3,
        CornerTwist::from_index(a.index()) == a,
        a.spec_twist_by(CornerTwist::Oriented) == a,
        CornerTwist::Oriented.spec_twist_by(a) == a,
        a.spec_twist_by(b) == b.spec_twist_by(a),
        a.spec_twist_by(b).spec_twist_by(c) == a.spec_twist_by(b.spec_twist_by(c)),
        exists|i: CornerTwist| a.spec_twist_by(i) == CornerTwist::Oriented,
{
    assert(a.spec_twist_by(CornerTwist::from_index((3 - a.index()) % 3)) == CornerTwist::Oriented);
}

/// The 24 corner facelets. A facelet is named by its own face first, then by the two
/// other faces of its piece. The declaration order fixes the facelet indices 0..24.
#[derive(Debug, Copy, Clone, PartialEq, Eq, Hash, Structural)]
#[allow(missing_docs)]
pub enum CornerPos {
    UBL,
    UBR,
    UFR,
    UFL,
    LUB,
    LUF,
    LDF,
    LDB,
    FUL,
    FUR,
    FDR,
    FDL,
    RUF,
    RUB,
    RDB,
    RDF,
    BUR,
    BUL,
    BDL,
    BDR,
    DFR,
    DBR,
    DBL,
    DFL,
}

/// Every corner facelet, at the position of its own index.
pub const CORNER_POSITIONS: [CornerPos; 24] = [
    CornerPos::UBL, CornerPos::UBR, CornerPos::UFR, CornerPos::UFL,
    CornerPos::LUB, CornerPos::LUF, CornerPos::LDF, CornerPos::LDB,
    CornerPos::FUL, CornerPos::FUR, CornerPos::FDR, CornerPos::FDL,
    CornerPos::RUF, CornerPos::RUB, CornerPos::RDB, CornerPos::RDF,
    CornerPos::BUR, CornerPos::BUL, CornerPos::BDL, CornerPos::BDR,
    CornerPos::DFR, CornerPos::DBR, CornerPos::DBL, CornerPos::DFL,
];

/// For each corner facelet, the piece it belongs to.
pub const CORNER_POS_PIECE: [Corner; 24] = [
    Corner::UBL, Corner::UBR, Corner::UFR, Corner::UFL,
    Corner::UBL, Corner::UFL, Corner::DFL, Corner::DBL,
    Corner::UFL, Corner::UFR, Corner::DFR, Corner::DFL,
    Corner::UFR, Corner::UBR, Corner::DBR, Corner::DFR,
    Corner::UBR, Corner::UBL, Corner::DBL, Corner::DBR,
    Corner::DFR, Corner::DBR, Corner::DBL, Corner::DFL,
];

/// For each corner facelet, the twist of a corner when this facelet of the corner
/// shows on the U or D facelet of its slot.
pub const CORNER_POS_TWIST: [CornerTwist; 24] = [
    CornerTwist::Oriented, CornerTwist::Oriented, CornerTwist::Oriented, CornerTwist::Oriented,
    CornerTwist::Clockwise, CornerTwist::AntiClockwise, CornerTwist::Clockwise, CornerTwist::AntiClockwise,
    CornerTwist::Clockwise, CornerTwist::AntiClockwise, CornerTwist::Clockwise, CornerTwist::AntiClockwise,
    CornerTwist::Clockwise, CornerTwist::AntiClockwise, CornerTwist::Clockwise, CornerTwist::AntiClockwise,
    CornerTwist::Clockwise, CornerTwist::AntiClockwise, CornerTwist::Clockwise, CornerTwist::AntiClockwise,
    CornerTwist::Oriented, CornerTwist::Oriented, CornerTwist::Oriented, CornerTwist::Oriented,
];

/// For each corner facelet, its own face followed by the faces of the two other
/// facelets of the slot.
pub const CORNER_POS_FACES: [(Face, Face, Face); 24] = [
    (Face::U, Face::L, Face::B), (Face::U, Face::B, Face::R),
    (Face::U, Face::R, Face::F), (Face::U, Face::F, Face::L),
    (Face::L, Face::B, Face::U), (Face::L, Face::U, Face::F),
    (Face::L, Face::F, Face::D), (Face::L, Face::D, Face::B),
    (Face::F, Face::L, Face::U), (Face::F, Face::U, Face::R),
    (Face::F, Face::R, Face::D), (Face::F, Face::D, Face::L),
    (Face::R, Face::F, Face::U), (Face::R, Face::U, Face::B),
    (Face::R, Face::B, Face::D), (Face::R, Face::D, Face::F),
    (Face::B, Face::R, Face::U), (Face::B, Face::U, Face::L),
    (Face::B, Face::L, Face::D), (Face::B, Face::D, Face::R),
    (Face::D, Face::F, Face::R), (Face::D, Face::R, Face::B),
    (Face::D, Face::B, Face::L), (Face::D, Face::L, Face::F),
];

/// For each corner and twist, the facelet of the corner that shows on the U or D
/// facelet of its slot.
pub const CORNER_TWIST_POS: [[CornerPos; 3]; 8] = [
    [CornerPos::UFR, CornerPos::RUF, CornerPos::FUR],
    [CornerPos::UFL, CornerPos::FUL, CornerPos::LUF],
    [CornerPos::UBL, CornerPos::LUB, CornerPos::BUL],
    [CornerPos::UBR, CornerPos::BUR, CornerPos::RUB],
    [CornerPos::DFR, CornerPos::FDR, CornerPos::RDF],
    [CornerPos::DFL, CornerPos::LDF, CornerPos::FDL],
    [CornerPos::DBL, CornerPos::BDL, CornerPos::LDB],
    [CornerPos::DBR, CornerPos::RDB, CornerPos::BDR],
];

impl CornerPos {
    /// The index of the facelet.
    pub open spec fn index(self) -> int {
        self as int
    }

    /// The index of the facelet.
    pub fn to_index(self) -> (r: usize)
        ensures
            r == self.index(),
            r < 24,
    {
        self as usize
    }

    /// The facelet with the given index, for an index below 24.
    pub open spec fn from_index(i: int) -> CornerPos {
        CORNER_POSITIONS[i]
    }

    /// The three faces of the slot, this facelet's own face first.
    #[verifier::opaque]
    pub open spec fn spec_faces(self) -> (Face, Face, Face) {
        CORNER_POS_FACES[self.index()]
    }

    /// The face this facelet lies on.
    pub open spec fn spec_face(self) -> Face {
        self.spec_faces().0
    }

    /// The next facelet of the same slot, going round the corner clockwise: the one
    /// whose twist is lower by one.
    pub open spec fn spec_clockwise(self) -> CornerPos {
        CornerPos::spec_of_piece(
            self.spec_piece(),
            self.spec_ud_orientation().spec_twist_by(CornerTwist::AntiClockwise),
        )
    }

    /// The next facelet of the same slot, going round the corner anticlockwise: the
    /// one whose twist is higher by one.
    pub open spec fn spec_anticlockwise(self) -> CornerPos {
        CornerPos::spec_of_piece(
            self.spec_piece(),
            self.spec_ud_orientation().spec_twist_by(CornerTwist::Clockwise),
        )
    }

    /// The piece, or slot, this facelet belongs to.
    #[verifier::opaque]
    pub open spec fn spec_piece(self) -> Corner {
        CORNER_POS_PIECE[self.index()]
    }

    /// The twist of a corner of which this facelet shows on the U or D facelet of its
    /// slot.
    #[verifier::opaque]
    pub open spec fn spec_ud_orientation(self) -> CornerTwist {
        CORNER_POS_TWIST[self.index()]
    }

    /// The facelet of `piece` that shows on the U or D facelet of its slot when the
    /// piece is twisted by `twist`.
    #[verifier::opaque]
    pub open spec fn spec_of_piece(piece: Corner, twist: CornerTwist) -> CornerPos {
        CORNER_TWIST_POS[piece.index()][twist.index()]
    }

    /// The facelet whose faces are `f1`, `f2`, `f3`, the last two in either order,
    /// if there is one.
    pub open spec fn spec_from_faces(f1: Face, f2: Face, f3: Face) -> Option<CornerPos> {
        if exists|p: CornerPos| p.has_faces(f1, f2, f3) {
            Some(choose|p: CornerPos| p.has_faces(f1, f2, f3))
        } else {
            None
        }
    }

    /// Whether this facelet lies on `f1` and its slot touches `f2` and `f3` besides.
    pub open spec fn has_faces(self, f1: Face, f2: Face, f3: Face) -> bool {
        self.spec_faces() == (f1, f2, f3) || self.spec_faces() == (f1, f3, f2)
    }

    /// The face this facelet lies on.
    pub fn face(self) -> (r: Face)
        ensures
            r == self.spec_face(),
    {
        self.faces().0
    }

    /// The three faces of the slot, this facelet's own face first.
    pub fn faces(self) -> (r: (Face, Face, Face))
        ensures
            r == self.spec_faces(),
    {
        proof {
            reveal(CornerPos::spec_faces);
            reveal(CornerPos::spec_piece);
            reveal(CornerPos::spec_ud_orientation);
            reveal(CornerPos::spec_of_piece);
        }
        CORNER_POS_FACES[self as usize]
    }

    /// The facelet whose faces are, in order, the third, first and second of this one.
    pub fn clockwise(self) -> (r: CornerPos)
        ensures
            r == self.spec_clockwise(),
            r.spec_faces() == (self.spec_faces().2, self.spec_faces().0, self.spec_faces().1),
            r.spec_piece() == self.spec_piece(),
    {
        proof {
            reveal(CornerPos::spec_faces);
            reveal(CornerPos::spec_piece);
            reveal(CornerPos::spec_ud_orientation);
            reveal(CornerPos::spec_of_piece);
        }
        let twist = self.ud_orientation().twist_by(CornerTwist::AntiClockwise);
        CORNER_TWIST_POS[self.piece() as usize][twist as usize]
    }

    /// The facelet whose faces are, in order, the second, third and first of this one.
    pub fn anticlockwise(self) -> (r: CornerPos)
        ensures
            r == self.spec_anticlockwise(),
            r.spec_faces() == (self.spec_faces().1, self.spec_faces().2, self.spec_faces().0),
            r.spec_piece() == self.spec_piece(),
    {
        proof {
            reveal(CornerPos::spec_faces);
            reveal(CornerPos::spec_piece);
            reveal(CornerPos::spec_ud_orientation);
            reveal(CornerPos::spec_of_piece);
        }
        let twist = self.ud_orientation().twist_by(CornerTwist::Clockwise);
        CORNER_TWIST_POS[self.piece() as usize][twist as usize]
    }

    /// Returns the corner piece that a corner sticker is on.
    pub fn piece(self) -> (r: Corner)
        ensures
            r == self.spec_piece(),
    {
        proof {
            reveal(CornerPos::spec_faces);
            reveal(CornerPos::spec_piece);
            reveal(CornerPos::spec_ud_orientation);
            reveal(CornerPos::spec_of_piece);
        }
        CORNER_POS_PIECE[self as usize]
    }

    /// Returns the corner orientation of a sticker with respect to the U/D axis.
    pub fn ud_orientation(self) -> (r: CornerTwist)
        ensures
            r == self.spec_ud_orientation(),
    {
        proof {
            reveal(CornerPos::spec_faces);
            reveal(CornerPos::spec_piece);
            reveal(CornerPos::spec_ud_orientation);
            reveal(CornerPos::spec_of_piece);
        }
        CORNER_POS_TWIST[self as usize]
    }
}

impl From<Corner> for CornerPos {
    fn from(value: Corner) -> (r: CornerPos) {
        proof {
            reveal(CornerPos::spec_faces);
            reveal(CornerPos::spec_piece);
            reveal(CornerPos::spec_ud_orientation);
            reveal(CornerPos::spec_of_piece);
        }
        CORNER_TWIST_POS[value as usize][0]
    }
}

impl FromSpecImpl<Corner> for CornerPos {
    open spec fn obeys_from_spec() -> bool {
        true
    }

    open spec fn from_spec(value: Corner) -> CornerPos {
        CornerPos::spec_of_piece(value, CornerTwist::Oriented)
    }
}

impl From<(Corner, CornerTwist)> for CornerPos {
    fn from(value: (Corner, CornerTwist)) -> (r: CornerPos) {
        proof {
            reveal(CornerPos::spec_faces);
            reveal(CornerPos::spec_piece);
            reveal(CornerPos::spec_ud_orientation);
            reveal(CornerPos::spec_of_piece);
        }
        CORNER_TWIST_POS[value.0 as usize][value.1 as usize]
    }
}

impl FromSpecImpl<(Corner, CornerTwist)> for CornerPos {
    open spec fn obeys_from_spec() -> bool {
        true
    }

    open spec fn from_spec(value: (Corner, CornerTwist)) -> CornerPos {
        CornerPos::spec_of_piece(value.0, value.1)
    }
}

impl From<CornerPos> for (Face, Face, Face) {
    fn from(value: CornerPos) -> (r: (Face, Face, Face)) {
        value.faces()
    }
}

impl FromSpecImpl<CornerPos> for (Face, Face, Face) {
    open spec fn obeys_from_spec() -> bool {
        true
    }

    open spec fn from_spec(value: CornerPos) -> (Face, Face, Face) {
        value.spec_faces()
    }
}

impl From<CornerPos> for usize {
    fn from(value: CornerPos) -> (r: usize) {
        value as usize
    }
}

impl FromSpecImpl<CornerPos> for usize {
    open spec fn obeys_from_spec() -> bool {
        true
    }

    open spec fn from_spec(value: CornerPos) -> usize {
        value as usize
    }
}

impl From<CornerPos> for Face {
    fn from(value: CornerPos) -> (r: Face) {
        proof {
            reveal(CornerPos::spec_faces);
            reveal(CornerPos::spec_piece);
            reveal(CornerPos::spec_ud_orientation);
            reveal(CornerPos::spec_of_piece);
        }
        value.face()
    }
}

impl FromSpecImpl<CornerPos> for Face {
    open spec fn obeys_from_spec() -> bool {
        true
    }

    open spec fn from_spec(value: CornerPos) -> Face {
        value.spec_face()
    }
}

impl TryFrom<(Face, Face, Face)> for CornerPos {
    type Error = StickerToPieceError;

    fn try_from(value: (Face, Face, Face)) -> (r: Result<CornerPos, Self::Error>) {
        let (f1, f2, f3) = value;
        let mut i: usize = 0;
        while i < 24
            invariant
                i <= 24,
                f1 == value.0,
                f2 == value.1,
                f3 == value.2,
                forall|j: int| 0 <= j < i ==> !CornerPos::from_index(j).has_faces(f1, f2, f3),
            decreases 24 - i,
        {
            let p = CORNER_POSITIONS[i];
            let (g1, g2, g3) = p.faces();
            if g1 == f1 && ((g2 == f2 && g3 == f3) || (g2 == f3 && g3 == f2)) {
                proof {
                    assert(p.has_faces(f1, f2, f3));
                    lemma_corner_faces_injective(p, choose|q: CornerPos| q.has_faces(f1, f2, f3));
                }
                return Ok(p);
            }
            i += 1;
        }
        proof {
            assert forall|q: CornerPos| !q.has_faces(f1, f2, f3) by {
                lemma_corner_pos_index(q, 0);
            }
        }
        Err(StickerToPieceError::InvalidPiece)
    }
}

impl TryFromSpecImpl<(Face, Face, Face)> for CornerPos {
    open spec fn obeys_try_from_spec() -> bool {
        true
    }

    open spec fn try_from_spec(value: (Face, Face, Face)) -> Result<Self, Self::Error> {
        match CornerPos::spec_from_faces(value.0, value.1, value.2) {
            Some(p) => Ok(p),
            None => Err(StickerToPieceError::InvalidPiece),
        }
    }
}

/// `CORNER_POSITIONS` lists the facelets by index.
pub proof fn lemma_corner_pos_index(p: CornerPos, i: int)
    ensures
        0 <= p.index() < 24,
        CornerPos::from_index(p.index()) == p,
        0 <= i < 24 ==> CornerPos::from_index(i).index() == i,
{
}

/// No two corner facelets read the same faces, whatever the order of the last two.
pub proof fn lemma_corner_faces_injective(p: CornerPos, q: CornerPos)
    ensures
        forall|f1: Face, f2: Face, f3: Face|
            p.has_faces(f1, f2, f3) && q.has_faces(f1, f2, f3) ==> p == q,
{
    reveal(CornerPos::spec_faces);
    reveal(CornerPos::spec_piece);
    reveal(CornerPos::spec_ud_orientation);
    reveal(CornerPos::spec_of_piece);
}

/// Facelets correspond one to one to pairs of piece and twist, and going round a slot
/// rotates the faces that its facelets read.
pub proof fn lemma_corner_pos_bijection(p: CornerPos, c: Corner, t: CornerTwist)
    ensures
        CornerPos::spec_of_piece(p.spec_piece(), p.spec_ud_orientation()) == p,
        CornerPos::spec_of_piece(c, t).spec_piece() == c,
        CornerPos::spec_of_piece(c, t).spec_ud_orientation() == t,
        p.spec_clockwise().spec_piece() == p.spec_piece(),
        p.spec_clockwise().spec_clockwise() == p.spec_anticlockwise(),
        p.spec_anticlockwise().spec_clockwise() == p,
        p.spec_clockwise().spec_faces() == (p.spec_faces().2, p.spec_faces().0, p.spec_faces().1),
        p.spec_anticlockwise().spec_faces() == (
            p.spec_faces().1,
            p.spec_faces().2,
            p.spec_faces().0,
        ),
{
    reveal(CornerPos::spec_faces);
    reveal(CornerPos::spec_piece);
    reveal(CornerPos::spec_ud_orientation);
    reveal(CornerPos::spec_of_piece);
}

} // verus!
