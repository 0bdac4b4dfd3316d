//! The cube as its stickers, and the conversions between stickers and pieces.

use super::corner::{
    lemma_corner_faces_injective, lemma_corner_index, lemma_corner_pos_bijection,
    lemma_corner_pos_index, lemma_twist_group, Corner, CornerPos, CornerTwist,
};
use super::edge::{
    lemma_edge_faces_injective, lemma_edge_index, lemma_edge_pos_bijection, lemma_edge_pos_index,
    lemma_flip_group, Edge, EdgeFlip, EdgePos,
};
use super::{lemma_face_index, CubieCube, CubieState, Face, Sticker, StickerToPieceError, FACES, STICKERS};
use vstd::prelude::*;
use vstd::std_specs::convert::{FromSpecImpl, TryFromSpecImpl};

verus! {

/// An error type for conversion from a sticker representation to cubie representation.
#[derive(Debug, Copy, Clone, PartialEq, Eq, Hash, Structural)]
pub enum StickerToCubieError {
    /// A corner had stickers corresponding to an illegal state
    BadCorner(Corner),
    /// An edge had stickers corresponding to an illegal state
    BadEdge(Edge),
}

/// The stickers of a cube as plain sequences, indexed by facelet and by face.
#[verifier::ext_equal]
pub struct StickerState {
    /// The sticker on each of the 24 edge facelets
    pub edges: Seq<Sticker>,
    /// The sticker on each of the 24 corner facelets
    pub corners: Seq<Sticker>,
    /// The sticker on the centre of each of the 6 faces
    pub centers: Seq<Sticker>,
}

/// The facelet of a corner slot that lies on the U or D face.
pub open spec fn corner_slot_pos(slot: int) -> CornerPos {
    CornerPos::spec_of_piece(Corner::from_index(slot), CornerTwist::Oriented)
}

/// The leading facelet of an edge slot: the one on the U or D face, or else the one
/// on the F or B face.
pub open spec fn edge_slot_pos(slot: int) -> EdgePos {
    EdgePos::spec_of_piece(Edge::from_index(slot), EdgeFlip::Oriented)
}

impl StickerState {
    /// Whether there is a sticker for every facelet and every centre.
    pub open spec fn well_formed(self) -> bool {
        &&& self.edges.len() == 24
        &&& self.corners.len() == 24
        &&& self.centers.len() == 6
    }

    /// The stickers of the solved cube: every facelet shows the sticker of its face.
    pub open spec fn solved() -> StickerState {
        StickerState {
            edges: Seq::new(24, |i: int| Sticker::from_index(i / 4)),
            corners: Seq::new(24, |i: int| Sticker::from_index(i / 4)),
            centers: Seq::new(6, |i: int| Sticker::from_index(i)),
        }
    }

    /// Whether `i` is the first face whose centre shows `sticker`.
    pub open spec fn is_first_center(self, sticker: Sticker, i: int) -> bool {
        &&& 0 <= i < self.centers.len()
        &&& self.centers[i] == sticker
        &&& forall|j: int| 0 <= j < i ==> self.centers[j] != sticker
    }

    /// The face that `sticker` is the colour of: the first whose centre shows it.
    pub open spec fn face_of(self, sticker: Sticker) -> Option<Face> {
        if exists|i: int| self.is_first_center(sticker, i) {
            Some(Face::from_index(choose|i: int| self.is_first_center(sticker, i)))
        } else {
            None
        }
    }

    /// The facelet of the piece whose sticker shows at the edge facelet `pos`, read off
    /// the two stickers of the slot.
    pub open spec fn edge_at(self, pos: EdgePos) -> Result<EdgePos, StickerToPieceError> {
        match (
            self.face_of(self.edges[pos.index()]),
            self.face_of(self.edges[pos.spec_flip().index()]),
        ) {
            (Some(f1), Some(f2)) => match EdgePos::spec_from_faces(f1, f2) {
                Some(p) => Ok(p),
                None => Err(StickerToPieceError::InvalidPiece),
            },
            _ => Err(StickerToPieceError::InvalidPiece),
        }
    }

    /// The facelet of the piece whose sticker shows at the corner facelet `pos`, read
    /// off the three stickers of the slot.
    pub open spec fn corner_at(self, pos: CornerPos) -> Result<CornerPos, StickerToPieceError> {
        match (
            self.face_of(self.corners[pos.index()]),
            self.face_of(self.corners[pos.spec_clockwise().index()]),
            self.face_of(self.corners[pos.spec_anticlockwise().index()]),
        ) {
            (Some(f1), Some(f2), Some(f3)) => match CornerPos::spec_from_faces(f1, f2, f3) {
                Some(p) => Ok(p),
                None => Err(StickerToPieceError::InvalidPiece),
            },
            _ => Err(StickerToPieceError::InvalidPiece),
        }
    }

    /// The stickers after the two stickers of an edge are put on a slot, so that the
    /// facelet `piece` of the edge shows at `pos`.
    pub open spec fn place_edge(self, piece: EdgePos, pos: EdgePos) -> StickerState {
        StickerState {
            edges: self.edges.update(pos.index(), self.centers[piece.spec_face().index()]).update(
                pos.spec_flip().index(),
                self.centers[piece.spec_flip().spec_face().index()],
            ),
            corners: self.corners,
            centers: self.centers,
        }
    }

    /// The stickers after the three stickers of a corner are put on a slot, so that
    /// the facelet `piece` of the corner shows at `pos`.
    pub open spec fn place_corner(self, piece: CornerPos, pos: CornerPos) -> StickerState {
        StickerState {
            edges: self.edges,
            corners: self.corners.update(
                pos.index(),
                self.centers[piece.spec_face().index()],
            ).update(
                pos.spec_clockwise().index(),
                self.centers[piece.spec_clockwise().spec_face().index()],
            ).update(
                pos.spec_anticlockwise().index(),
                self.centers[piece.spec_anticlockwise().spec_face().index()],
            ),
            centers: self.centers,
        }
    }

    /// Whether the stickers of corner slot `i` are not those of a corner.
    pub open spec fn bad_corner(self, i: int) -> bool {
        0 <= i < 8 && self.corner_at(corner_slot_pos(i)) is Err
    }

    /// Whether the stickers of edge slot `i` are not those of an edge.
    pub open spec fn bad_edge(self, i: int) -> bool {
        0 <= i < 12 && self.edge_at(edge_slot_pos(i)) is Err
    }

    /// Whether `i` is the first corner slot whose stickers are not those of a corner.
    pub open spec fn first_bad_corner(self, i: int) -> bool {
        self.bad_corner(i) && forall|j: int| 0 <= j < i ==> !self.bad_corner(j)
    }

    /// Whether `i` is the first edge slot whose stickers are not those of an edge.
    pub open spec fn first_bad_edge(self, i: int) -> bool {
        self.bad_edge(i) && forall|j: int| 0 <= j < i ==> !self.bad_edge(j)
    }

    /// The facelet read at corner slot `i`, where there is one.
    pub open spec fn corner_in(self, i: int) -> CornerPos {
        match self.corner_at(corner_slot_pos(i)) {
            Ok(p) => p,
            Err(_) => CornerPos::UBL,
        }
    }

    /// The facelet read at edge slot `i`, where there is one.
    pub open spec fn edge_in(self, i: int) -> EdgePos {
        match self.edge_at(edge_slot_pos(i)) {
            Ok(p) => p,
            Err(_) => EdgePos::UB,
        }
    }

    /// The state of the pieces that shows these stickers. Where the stickers of a
    /// slot are not those of a piece, the error names the slot: the first such
    /// corner slot, or else the first such edge slot.
    pub open spec fn pieces(self) -> Result<CubieState, StickerToCubieError> {
        if exists|i: int| self.first_bad_corner(i) {
            Err(
                StickerToCubieError::BadCorner(
                    Corner::from_index(choose|i: int| self.first_bad_corner(i)),
                ),
            )
        } else if exists|i: int| self.first_bad_edge(i) {
            Err(
                StickerToCubieError::BadEdge(
                    Edge::from_index(choose|i: int| self.first_bad_edge(i)),
                ),
            )
        } else {
            Ok(
                CubieState {
                    co: Seq::new(8, |i: int| self.corner_in(i).spec_ud_orientation().index()),
                    cp: Seq::new(8, |i: int| self.corner_in(i).spec_piece().index()),
                    eo: Seq::new(12, |i: int| self.edge_in(i).spec_fb_orientation().index()),
                    ep: Seq::new(12, |i: int| self.edge_in(i).spec_piece().index()),
                },
            )
        }
    }
}

impl CubieState {
    /// The facelet of the edge in the slot of `pos` that shows at `pos`.
    pub open spec fn edge_facelet(self, pos: EdgePos) -> EdgePos {
        let slot = pos.spec_piece().index();
        EdgePos::spec_of_piece(
            Edge::from_index(self.ep[slot]),
            EdgeFlip::from_index((self.eo[slot] + pos.spec_fb_orientation().index()) % 2),
        )
    }

    /// The facelet of the corner in the slot of `pos` that shows at `pos`.
    pub open spec fn corner_facelet(self, pos: CornerPos) -> CornerPos {
        let slot = pos.spec_piece().index();
        CornerPos::spec_of_piece(
            Corner::from_index(self.cp[slot]),
            CornerTwist::from_index((self.co[slot] + pos.spec_ud_orientation().index()) % 3),
        )
    }

    /// The stickers that the state shows, on a cube held with its centres as on the
    /// solved cube: each facelet shows the sticker of the face on which that facelet
    /// of its piece lies when the cube is solved.
    pub open spec fn stickers(self) -> StickerState {
        StickerState {
            edges: Seq::new(
                24,
                |i: int|
                    Sticker::from_index(
                        self.edge_facelet(EdgePos::from_index(i)).spec_face().index(),
                    ),
            ),
            corners: Seq::new(
                24,
                |i: int|
                    Sticker::from_index(
                        self.corner_facelet(CornerPos::from_index(i)).spec_face().index(),
                    ),
            ),
            centers: Seq::new(6, |i: int| Sticker::from_index(i)),
        }
    }
}

/// A Rubik's cube implementation that represents itself using stickers. Faces go in the order of
/// UP LEFT FRONT RIGHT BACK DOWN. Stickers go left to right, top to bottom, starting at the top
/// right.
#[derive(Debug, Copy, Clone, PartialEq, Eq, Hash)]
pub struct StickerCube {
    /// The sticker on each edge facelet
    pub edges: [Sticker; 24],
    /// The sticker on each corner facelet
    pub corners: [Sticker; 24],
    /// The sticker on the centre of each face
    pub centers: [Sticker; 6],
}

impl View for StickerCube {
    type V = StickerState;

    open spec fn view(&self) -> StickerState {
        StickerState { edges: self.edges@, corners: self.corners@, centers: self.centers@ }
    }
}

impl StickerCube {
    /// The solved cube.
    pub fn solved() -> (r: StickerCube)
        ensures
            r@ == StickerState::solved(),
    {
        let mut r = StickerCube {
            edges: [Sticker::S1;24],
            corners: [Sticker::S1;24],
            centers: STICKERS,
        };
        for i in 0..24
            invariant
                r.centers == STICKERS,
                forall|j: int| 0 <= j < i ==> r.edges[j] == Sticker::from_index(j / 4),
                forall|j: int| 0 <= j < i ==> r.corners[j] == Sticker::from_index(j / 4),
        {
            r.edges[i] = STICKERS[i / 4];
            r.corners[i] = STICKERS[i / 4];
        }
        assert(r@ =~= StickerState::solved());
        r
    }

    /// The face whose centre shows `sticker`, if there is one; the first if there are
    /// several.
    pub fn find_face(&self, sticker: Sticker) -> (r: Option<Face>)
        ensures
            r == self@.face_of(sticker),
    {
        let mut i: usize = 0;
        while i < 6
            invariant
                i <= 6,
                forall|j: int| 0 <= j < i ==> self.centers[j] != sticker,
            decreases 6 - i,
        {
            if self.centers[i] == sticker {
                assert(self@.is_first_center(sticker, i as int));
                return Some(FACES[i]);
            }
            i += 1;
        }
        None
    }

    /// The face whose centre shows `sticker`.
    pub fn sticker_to_face(&self, sticker: Sticker) -> (r: Face)
        requires
            self.centers@.contains(sticker),
        ensures
            self@.face_of(sticker) == Some(r),
            self.centers[r.index()] == sticker,
    {
        match self.find_face(sticker) {
            Some(face) => {
                proof {
                    lemma_face_index(face, sticker, choose|i: int| self@.is_first_center(sticker, i));
                }
                face
            },
            None => {
                proof {
                    let k = choose|k: int| 0 <= k < 6 && self.centers@[k] == sticker;
                    self@.lemma_first_center(sticker, k);
                }
                Face::U
            },
        }
    }

    /// The sticker that the centre of `face` shows.
    pub fn face_to_sticker(&self, face: Face) -> (r: Sticker)
        ensures
            r == self.centers[face.index()],
    {
        self.centers[face.to_index()]
    }

    /// Reads the edge at a facelet off the stickers of its slot: the result names
    /// the facelet of the piece that shows at `pos`. It fails where the two stickers
    /// are not those of an edge.
    pub fn edge_at(&self, pos: EdgePos) -> (r: Result<EdgePos, StickerToPieceError>)
        ensures
            r == self@.edge_at(pos),
    {
        let s1 = self.edges[pos.to_index()];
        let s2 = self.edges[pos.flip().to_index()];
        match (self.find_face(s1), self.find_face(s2)) {
            (Some(f1), Some(f2)) => EdgePos::try_from((f1, f2)),
            _ => Err(StickerToPieceError::InvalidPiece),
        }
    }

    /// Reads the corner at a facelet off the stickers of its slot: the result names
    /// the facelet of the piece that shows at `pos`. It fails where the three
    /// stickers are not those of a corner.
    pub fn corner_at(&self, pos: CornerPos) -> (r: Result<CornerPos, StickerToPieceError>)
        ensures
            r == self@.corner_at(pos),
    {
        let s1 = self.corners[pos.to_index()];
        let s2 = self.corners[pos.clockwise().to_index()];
        let s3 = self.corners[pos.anticlockwise().to_index()];
        match (self.find_face(s1), self.find_face(s2), self.find_face(s3)) {
            (Some(f1), Some(f2), Some(f3)) => CornerPos::try_from((f1, f2, f3)),
            _ => Err(StickerToPieceError::InvalidPiece),
        }
    }

    /// Puts the two stickers of an edge on a slot, so that the facelet `piece` of the
    /// edge shows at `pos`.
    pub fn place_edge(&mut self, piece: EdgePos, pos: EdgePos)
        ensures
            final(self)@ == old(self)@.place_edge(piece, pos),
    {
        self.edges[pos.to_index()] = self.face_to_sticker(piece.face());
        self.edges[pos.flip().to_index()] = self.face_to_sticker(piece.flip().face());
        assert(self@ =~= old(self)@.place_edge(piece, pos));
    }

    /// Puts the three stickers of a corner on a slot, so that the facelet `piece` of
    /// the corner shows at `pos`.
    pub fn place_corner(&mut self, piece: CornerPos, pos: CornerPos)
        ensures
            final(self)@ == old(self)@.place_corner(piece, pos),
    {
        self.corners[pos.to_index()] = self.face_to_sticker(piece.face());
        self.corners[pos.clockwise().to_index()] = self.face_to_sticker(piece.clockwise().face());
        self.corners[pos.anticlockwise().to_index()] = self.face_to_sticker(
            piece.anticlockwise().face(),
        );
        assert(self@ =~= old(self)@.place_corner(piece, pos));
    }
}

impl StickerState {
    /// Where a centre shows `sticker`, a first centre shows it.
    pub proof fn lemma_first_center(self, sticker: Sticker, k: int)
        requires
            0 <= k < self.centers.len(),
            self.centers[k] == sticker,
        ensures
            exists|i: int| self.is_first_center(sticker, i),
        decreases k,
    {
        if exists|j: int| 0 <= j < k && self.centers[j] == sticker {
            let j = choose|j: int| 0 <= j < k && self.centers[j] == sticker;
            self.lemma_first_center(sticker, j);
        } else {
            assert(self.is_first_center(sticker, k));
        }
    }
}

impl StickerCube {
    /// The stickers that a cubie cube shows.
    pub fn from_cubie(cube: &CubieCube) -> (r: StickerCube)
        ensures
            r@ == cube@.stickers(),
            r@.pieces() == Ok::<CubieState, StickerToCubieError>(cube@),
    {
        let mut sticker_cube = StickerCube::solved();
        let ghost target = cube@.stickers();
        for i in 0..12
            invariant
                sticker_cube.centers@ == StickerState::solved().centers,
                sticker_cube.corners@ == StickerState::solved().corners,
                target == cube@.stickers(),
                forall|k: int|
                    0 <= k < 24 && EdgePos::from_index(k).spec_piece().index() < i
                        ==> sticker_cube.edges[k] == target.edges[k],
        {
            let piece: EdgePos = (cube.ep[i], cube.eo[i]).into();
            let pos: EdgePos = Edge::ARRAY[i].into();
            let ghost before = sticker_cube@;
            sticker_cube.place_edge(piece, pos);
            proof {
                lemma_edge_index(cube.ep[i as int], i as int);
                lemma_flip_group(cube.eo[i as int], EdgeFlip::Oriented, EdgeFlip::Oriented);
                lemma_edge_pos_bijection(piece, cube.ep[i as int], cube.eo[i as int]);
                lemma_edge_pos_bijection(pos, Edge::ARRAY[i as int], EdgeFlip::Oriented);
                lemma_edge_pos_bijection(pos, Edge::ARRAY[i as int], EdgeFlip::Flipped);
                lemma_edge_pos_index(pos, 0);
                lemma_edge_pos_index(pos.spec_flip(), 0);
                lemma_face_index(piece.spec_face(), Sticker::S1, 0);
                lemma_face_index(piece.spec_flip().spec_face(), Sticker::S1, 0);
                assert(cube@.edge_facelet(pos) == piece);
                assert(cube@.edge_facelet(pos.spec_flip()) == piece.spec_flip());
                assert forall|k: int|
                    0 <= k < 24 && EdgePos::from_index(k).spec_piece().index() < i
                        + 1 implies sticker_cube.edges[k] == target.edges[k] by {
                    let p = EdgePos::from_index(k);
                    lemma_edge_pos_index(p, k);
                    lemma_edge_pos_bijection(p, Edge::ARRAY[i as int], EdgeFlip::Oriented);
                    lemma_flip_group(p.spec_fb_orientation(), EdgeFlip::Oriented, EdgeFlip::Oriented);
                    lemma_edge_index(p.spec_piece(), i as int);
                    if p.spec_piece().index() == i {
                        assert(p == pos || p == pos.spec_flip());
                    } else {
                        assert(before.edges[k] == target.edges[k]);
                    }
                }
            }
        }
        for i in 0..8
            invariant
                sticker_cube.centers@ == StickerState::solved().centers,
                sticker_cube.edges@ == target.edges,
                target == cube@.stickers(),
                forall|k: int|
                    0 <= k < 24 && CornerPos::from_index(k).spec_piece().index() < i
                        ==> sticker_cube.corners[k] == target.corners[k],
        {
            let piece: CornerPos = (cube.cp[i], cube.co[i]).into();
            let pos: CornerPos = Corner::ARRAY[i].into();
            let ghost before = sticker_cube@;
            sticker_cube.place_corner(piece, pos);
            proof {
                lemma_corner_index(cube.cp[i as int], i as int);
                lemma_twist_group(cube.co[i as int], CornerTwist::Oriented, CornerTwist::Oriented);
                lemma_corner_pos_bijection(piece, cube.cp[i as int], cube.co[i as int]);
                lemma_corner_pos_bijection(pos, Corner::ARRAY[i as int], CornerTwist::Oriented);
                lemma_corner_pos_bijection(pos, Corner::ARRAY[i as int], CornerTwist::Clockwise);
                lemma_corner_pos_bijection(pos, Corner::ARRAY[i as int], CornerTwist::AntiClockwise);
                lemma_corner_pos_index(pos, 0);
                lemma_corner_pos_index(pos.spec_clockwise(), 0);
                lemma_corner_pos_index(pos.spec_anticlockwise(), 0);
                lemma_face_index(piece.spec_face(), Sticker::S1, 0);
                lemma_face_index(piece.spec_clockwise().spec_face(), Sticker::S1, 0);
                lemma_face_index(piece.spec_anticlockwise().spec_face(), Sticker::S1, 0);
                assert(cube@.corner_facelet(pos) == piece);
                assert(cube@.corner_facelet(pos.spec_clockwise()) == piece.spec_clockwise());
                assert(cube@.corner_facelet(pos.spec_anticlockwise())
                    == piece.spec_anticlockwise());
                assert forall|k: int|
                    0 <= k < 24 && CornerPos::from_index(k).spec_piece().index() < i
                        + 1 implies sticker_cube.corners[k] == target.corners[k] by {
                    let p = CornerPos::from_index(k);
                    lemma_corner_pos_index(p, k);
                    lemma_corner_pos_bijection(p, Corner::ARRAY[i as int], CornerTwist::Oriented);
                    lemma_corner_index(p.spec_piece(), i as int);
                    if p.spec_piece().index() == i {
                        assert(p == pos || p == pos.spec_clockwise() || p
                            == pos.spec_anticlockwise());
                    } else {
                        assert(before.corners[k] == target.corners[k]);
                    }
                }
            }
        }
        proof {
            assert forall|k: int| 0 <= k < 24 implies sticker_cube.corners[k]
                == target.corners[k] by {
                lemma_corner_index(CornerPos::from_index(k).spec_piece(), 0);
            }
            assert(sticker_cube@ =~= target);
            cube.lemma_well_formed();
            lemma_sticker_round_trip(cube@);
        }
        sticker_cube
    }
}

impl CubieCube {
    /// The cubie cube that shows the stickers of `sticker_cube`. It fails where the
    /// stickers of a slot are not those of a piece, and the error names the slot: the
    /// first such corner slot, or else the first such edge slot.
    pub fn from_sticker_cube(sticker_cube: &StickerCube) -> (r: Result<
        CubieCube,
        StickerToCubieError,
    >)
        ensures
            match r {
                Ok(cube) => sticker_cube@.pieces() == Ok::<CubieState, StickerToCubieError>(cube@),
                Err(e) => sticker_cube@.pieces() == Err::<CubieState, StickerToCubieError>(e),
            },
    {
        let mut co = [CornerTwist::Oriented;8];
        let mut cp = [Corner::UBL;8];
        let mut eo = [EdgeFlip::Oriented;12];
        let mut ep = [Edge::UB;12];
        let ghost state = sticker_cube@;

        for i in 0..8
            invariant
                state == sticker_cube@,
                forall|j: int| 0 <= j < i ==> !state.bad_corner(j),
                forall|j: int| 0 <= j < i ==> co[j] == state.corner_in(j).spec_ud_orientation(),
                forall|j: int| 0 <= j < i ==> cp[j] == state.corner_in(j).spec_piece(),
        {
            let c = Corner::ARRAY[i];
            match sticker_cube.corner_at(c.into()) {
                Ok(corner) => {
                    co[i] = corner.ud_orientation();
                    cp[i] = corner.piece();
                },
                Err(_) => {
                    proof {
                        assert(state.first_bad_corner(i as int));
                        let k = choose|k: int| state.first_bad_corner(k);
                        assert(k == i);
                    }
                    return Err(StickerToCubieError::BadCorner(c));
                },
            }
        }

        for i in 0..12
            invariant
                state == sticker_cube@,
                forall|j: int| 0 <= j < 8 ==> !state.bad_corner(j),
                forall|j: int| 0 <= j < 8 ==> co[j] == state.corner_in(j).spec_ud_orientation(),
                forall|j: int| 0 <= j < 8 ==> cp[j] == state.corner_in(j).spec_piece(),
                forall|j: int| 0 <= j < i ==> !state.bad_edge(j),
                forall|j: int| 0 <= j < i ==> eo[j] == state.edge_in(j).spec_fb_orientation(),
                forall|j: int| 0 <= j < i ==> ep[j] == state.edge_in(j).spec_piece(),
        {
            let e = Edge::ARRAY[i];
            match sticker_cube.edge_at(e.into()) {
                Ok(edge) => {
                    eo[i] = edge.fb_orientation();
                    ep[i] = edge.piece();
                },
                Err(_) => {
                    proof {
                        assert(state.first_bad_edge(i as int));
                        let k = choose|k: int| state.first_bad_edge(k);
                        assert(k == i);
                    }
                    return Err(StickerToCubieError::BadEdge(e));
                },
            }
        }

        let cube = CubieCube { co, cp, eo, ep };
        proof {
            assert(state.pieces() is Ok);
            assert(cube@ =~= state.pieces()->Ok_0);
        }
        Ok(cube)
    }
}

impl From<CubieCube> for StickerCube {
    fn from(cubie_cube: CubieCube) -> (r: StickerCube)
        ensures
            r@ == cubie_cube@.stickers(),
            r@.pieces() == Ok::<CubieState, StickerToCubieError>(cubie_cube@),
    {
        StickerCube::from_cubie(&cubie_cube)
    }
}

impl FromSpecImpl<CubieCube> for StickerCube {
    open spec fn obeys_from_spec() -> bool {
        false
    }

    open spec fn from_spec(cubie_cube: CubieCube) -> StickerCube {
        arbitrary()
    }
}

impl TryFrom<StickerCube> for CubieCube {
    type Error = StickerToCubieError;

    fn try_from(sticker_cube: StickerCube) -> (r: Result<Self, Self::Error>)
        ensures
            match r {
                Ok(cube) => sticker_cube@.pieces() == Ok::<CubieState, StickerToCubieError>(cube@),
                Err(e) => sticker_cube@.pieces() == Err::<CubieState, StickerToCubieError>(e),
            },
    {
        CubieCube::from_sticker_cube(&sticker_cube)
    }
}

impl TryFromSpecImpl<StickerCube> for CubieCube {
    open spec fn obeys_try_from_spec() -> bool {
        false
    }

    open spec fn try_from_spec(sticker_cube: StickerCube) -> Result<Self, Self::Error> {
        arbitrary()
    }
}

/// On the stickers that a state shows, each sticker is the colour of the face of
/// its own index.
pub proof fn lemma_solved_centers(s: CubieState, sticker: Sticker)
    ensures
        s.stickers().face_of(sticker) == Some(Face::from_index(sticker.index())),
{
    let st = s.stickers();
    lemma_face_index(Face::U, sticker, 0);
    assert(st.is_first_center(sticker, sticker.index())) by {
        assert forall|j: int| 0 <= j < sticker.index() implies st.centers[j] != sticker by {
            lemma_face_index(Face::U, sticker, j);
        }
    }
    let k = choose|i: int| st.is_first_center(sticker, i);
    if k < sticker.index() {
        assert(st.centers[k] != sticker);
    }
    if sticker.index() < k {
        assert(st.centers[sticker.index()] == sticker);
    }
}

/// The facelet of the corner in a slot, by the index of the corner and the residue
/// of its twist.
pub open spec fn corner_piece_pos(piece: int, twist: int) -> CornerPos {
    CornerPos::spec_of_piece(Corner::from_index(piece), CornerTwist::from_index(twist))
}

/// The three facelets of a corner slot show the three facelets of the corner in it,
/// in the same order round the corner.
pub proof fn lemma_corner_facelets(s: CubieState, slot: int)
    requires
        s.well_formed(),
        0 <= slot < 8,
    ensures
        s.corner_facelet(corner_slot_pos(slot)) == corner_piece_pos(s.cp[slot], s.co[slot]),
        s.corner_facelet(corner_slot_pos(slot).spec_clockwise()) == corner_piece_pos(
            s.cp[slot],
            s.co[slot],
        ).spec_clockwise(),
        s.corner_facelet(corner_slot_pos(slot).spec_anticlockwise()) == corner_piece_pos(
            s.cp[slot],
            s.co[slot],
        ).spec_anticlockwise(),
        corner_piece_pos(s.cp[slot], s.co[slot]).spec_piece().index() == s.cp[slot],
        corner_piece_pos(s.cp[slot], s.co[slot]).spec_ud_orientation().index() == s.co[slot],
{
    let pos = corner_slot_pos(slot);
    let c = Corner::from_index(s.cp[slot]);
    let t = CornerTwist::from_index(s.co[slot]);
    let piece = CornerPos::spec_of_piece(c, t);
    let home = Corner::from_index(slot);
    assert(0 <= s.cp[slot] < 8 && 0 <= s.co[slot] < 3);
    lemma_corner_index(home, slot);
    lemma_corner_index(c, s.cp[slot]);
    lemma_twist_group(t, CornerTwist::Oriented, CornerTwist::Oriented);
    assert(t.index() == s.co[slot]);
    lemma_corner_pos_bijection(piece, c, t);
    lemma_corner_pos_bijection(pos, home, CornerTwist::Oriented);
    lemma_corner_pos_bijection(pos, home, CornerTwist::Clockwise);
    lemma_corner_pos_bijection(pos, home, CornerTwist::AntiClockwise);
    assert(pos.spec_clockwise() == CornerPos::spec_of_piece(home, CornerTwist::AntiClockwise));
    assert(pos.spec_anticlockwise() == CornerPos::spec_of_piece(home, CornerTwist::Clockwise));
}

/// Reading a corner slot off the stickers that a state shows gives the corner in
/// that slot and its orientation.
pub proof fn lemma_read_corner(s: CubieState, slot: int)
    requires
        s.well_formed(),
        0 <= slot < 8,
    ensures
        s.stickers().corner_at(corner_slot_pos(slot)) == Ok::<CornerPos, StickerToPieceError>(
            corner_piece_pos(s.cp[slot], s.co[slot]),
        ),
        corner_piece_pos(s.cp[slot], s.co[slot]).spec_piece().index() == s.cp[slot],
        corner_piece_pos(s.cp[slot], s.co[slot]).spec_ud_orientation().index() == s.co[slot],
{
    let st = s.stickers();
    let pos = corner_slot_pos(slot);
    let piece = corner_piece_pos(s.cp[slot], s.co[slot]);
    lemma_corner_facelets(s, slot);
    lemma_corner_pos_index(pos, 0);
    lemma_corner_pos_index(pos.spec_clockwise(), 0);
    lemma_corner_pos_index(pos.spec_anticlockwise(), 0);
    let f1 = piece.spec_face();
    let f2 = piece.spec_clockwise().spec_face();
    let f3 = piece.spec_anticlockwise().spec_face();
    lemma_face_index(f1, Sticker::S1, 0);
    lemma_face_index(f2, Sticker::S1, 0);
    lemma_face_index(f3, Sticker::S1, 0);
    lemma_solved_centers(s, st.corners[pos.index()]);
    lemma_solved_centers(s, st.corners[pos.spec_clockwise().index()]);
    lemma_solved_centers(s, st.corners[pos.spec_anticlockwise().index()]);
    assert(st.face_of(st.corners[pos.index()]) == Some(f1));
    assert(st.face_of(st.corners[pos.spec_clockwise().index()]) == Some(f2));
    assert(st.face_of(st.corners[pos.spec_anticlockwise().index()]) == Some(f3));
    lemma_corner_pos_bijection(piece, Corner::UFR, CornerTwist::Oriented);
    assert(piece.has_faces(f1, f2, f3));
    lemma_corner_faces_injective(piece, choose|p: CornerPos| p.has_faces(f1, f2, f3));
}

/// Reading an edge slot off the stickers that a state shows gives the edge in that
/// slot and its orientation.
pub proof fn lemma_read_edge(s: CubieState, slot: int)
    requires
        s.well_formed(),
        0 <= slot < 12,
    ensures
        s.stickers().edge_at(edge_slot_pos(slot)) == Ok::<EdgePos, StickerToPieceError>(
            EdgePos::spec_of_piece(Edge::from_index(s.ep[slot]), EdgeFlip::from_index(s.eo[slot])),
        ),
        EdgePos::spec_of_piece(
            Edge::from_index(s.ep[slot]),
            EdgeFlip::from_index(s.eo[slot]),
        ).spec_piece().index() == s.ep[slot],
        EdgePos::spec_of_piece(
            Edge::from_index(s.ep[slot]),
            EdgeFlip::from_index(s.eo[slot]),
        ).spec_fb_orientation().index() == s.eo[slot],
{
    let st = s.stickers();
    let pos = edge_slot_pos(slot);
    let e = Edge::from_index(s.ep[slot]);
    let t = EdgeFlip::from_index(s.eo[slot]);
    let piece = EdgePos::spec_of_piece(e, t);
    assert(0 <= s.ep[slot] < 12 && 0 <= s.eo[slot] < 2);
    lemma_edge_index(e, slot);
    lemma_edge_index(e, s.ep[slot]);
    lemma_flip_group(t, EdgeFlip::Oriented, EdgeFlip::Oriented);
    assert(t.index() == s.eo[slot]);
    lemma_edge_pos_bijection(piece, e, t);
    lemma_edge_pos_bijection(pos, Edge::from_index(slot), EdgeFlip::Oriented);
    lemma_edge_pos_bijection(pos, Edge::from_index(slot), EdgeFlip::Flipped);
    lemma_edge_pos_index(pos, 0);
    lemma_edge_pos_index(pos.spec_flip(), 0);
    assert(s.edge_facelet(pos) == piece);
    assert(s.edge_facelet(pos.spec_flip()) == piece.spec_flip());
    let f1 = piece.spec_face();
    let f2 = piece.spec_flip().spec_face();
    lemma_face_index(f1, Sticker::S1, 0);
    lemma_face_index(f2, Sticker::S1, 0);
    lemma_solved_centers(s, st.edges[pos.index()]);
    lemma_solved_centers(s, st.edges[pos.spec_flip().index()]);
    assert(st.face_of(st.edges[pos.index()]) == Some(f1));
    assert(st.face_of(st.edges[pos.spec_flip().index()]) == Some(f2));
    assert(piece.spec_faces() == (f1, f2));
    lemma_edge_faces_injective(piece, choose|p: EdgePos| p.spec_faces() == (f1, f2));
}

/// Reading the pieces off the stickers that a state shows gives the state back.
pub proof fn lemma_sticker_round_trip(s: CubieState)
    requires
        s.well_formed(),
    ensures
        s.stickers().well_formed(),
        s.stickers().pieces() == Ok::<CubieState, StickerToCubieError>(s),
{
    let st = s.stickers();
    assert forall|i: int| !st.bad_corner(i) by {
        if 0 <= i < 8 {
            lemma_read_corner(s, i);
        }
    }
    assert forall|i: int| !st.bad_edge(i) by {
        if 0 <= i < 12 {
            lemma_read_edge(s, i);
        }
    }
    let read = st.pieces()->Ok_0;
    assert forall|i: int| 0 <= i < 8 implies read.co[i] == s.co[i] && read.cp[i] == s.cp[i] by {
        lemma_read_corner(s, i);
    }
    assert forall|i: int| 0 <= i < 12 implies read.eo[i] == s.eo[i] && read.ep[i] == s.ep[i] by {
        lemma_read_edge(s, i);
    }
    assert(read =~= s);
}

} // verus!
