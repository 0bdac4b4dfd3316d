use cube_lib::cube333::corner::{Corner, CornerPos, CornerTwist, CORNER_POSITIONS};
use cube_lib::cube333::edge::{Edge, EdgeFlip, EdgePos};
use cube_lib::cube333::moves::{Move333, Move333Type};
use cube_lib::cube333::{
    CubieCube, Face, Sticker, StickerCube, StickerToCubieError, StickerToPieceError,
};

#[test]
fn pieces_on_solved_cube() {
    assert_eq!(StickerCube::solved().edge_at(EdgePos::UB).unwrap(), EdgePos::UB, "UB");
    assert_eq!(StickerCube::solved().edge_at(EdgePos::UR).unwrap(), EdgePos::UR, "UR");
    assert_eq!(StickerCube::solved().edge_at(EdgePos::UF).unwrap(), EdgePos::UF, "UF");
    assert_eq!(StickerCube::solved().edge_at(EdgePos::UL).unwrap(), EdgePos::UL, "UL");
    assert_eq!(StickerCube::solved().edge_at(EdgePos::LU).unwrap(), EdgePos::LU, "LU");
    assert_eq!(StickerCube::solved().edge_at(EdgePos::LF).unwrap(), EdgePos::LF, "LF");
    assert_eq!(StickerCube::solved().edge_at(EdgePos::LD).unwrap(), EdgePos::LD, "LD");
    assert_eq!(StickerCube::solved().edge_at(EdgePos::LB).unwrap(), EdgePos::LB, "LB");
    assert_eq!(StickerCube::solved().edge_at(EdgePos::FU).unwrap(), EdgePos::FU, "FU");
    assert_eq!(StickerCube::solved().edge_at(EdgePos::FR).unwrap(), EdgePos::FR, "FR");
    assert_eq!(StickerCube::solved().edge_at(EdgePos::FD).unwrap(), EdgePos::FD, "FD");
    assert_eq!(StickerCube::solved().edge_at(EdgePos::FL).unwrap(), EdgePos::FL, "FL");
    assert_eq!(StickerCube::solved().edge_at(EdgePos::RU).unwrap(), EdgePos::RU, "RU");
    assert_eq!(StickerCube::solved().edge_at(EdgePos::RB).unwrap(), EdgePos::RB, "RB");
    assert_eq!(StickerCube::solved().edge_at(EdgePos::RD).unwrap(), EdgePos::RD, "RD");
    assert_eq!(StickerCube::solved().edge_at(EdgePos::RF).unwrap(), EdgePos::RF, "RF");
    assert_eq!(StickerCube::solved().edge_at(EdgePos::BU).unwrap(), EdgePos::BU, "BU");
    assert_eq!(StickerCube::solved().edge_at(EdgePos::BL).unwrap(), EdgePos::BL, "BL");
    assert_eq!(StickerCube::solved().edge_at(EdgePos::BD).unwrap(), EdgePos::BD, "BD");
    assert_eq!(StickerCube::solved().edge_at(EdgePos::BR).unwrap(), EdgePos::BR, "BR");
    assert_eq!(StickerCube::solved().edge_at(EdgePos::DF).unwrap(), EdgePos::DF, "DF");
    assert_eq!(StickerCube::solved().edge_at(EdgePos::DR).unwrap(), EdgePos::DR, "DR");
    assert_eq!(StickerCube::solved().edge_at(EdgePos::DB).unwrap(), EdgePos::DB, "DB");
    assert_eq!(StickerCube::solved().edge_at(EdgePos::DL).unwrap(), EdgePos::DL, "DL");
}

#[test]
fn mod_pieces_on_solved_cube() {
    assert_eq!(StickerCube::solved().edge_at(EdgePos::UB).unwrap(), EdgePos::UB, "UB");
    assert_eq!(StickerCube::solved().edge_at(EdgePos::UR).unwrap(), EdgePos::UR, "UR");
    assert_eq!(StickerCube::solved().edge_at(EdgePos::UF).unwrap(), EdgePos::UF, "UF");
    assert_eq!(StickerCube::solved().edge_at(EdgePos::UL).unwrap(), EdgePos::UL, "UL");
    assert_eq!(StickerCube::solved().edge_at(EdgePos::LU).unwrap(), EdgePos::LU, "LU");
    assert_eq!(StickerCube::solved().edge_at(EdgePos::LF).unwrap(), EdgePos::LF, "LF");
    assert_eq!(StickerCube::solved().edge_at(EdgePos::LD).unwrap(), EdgePos::LD, "LD");
    assert_eq!(StickerCube::solved().edge_at(EdgePos::LB).unwrap(), EdgePos::LB, "LB");
    assert_eq!(StickerCube::solved().edge_at(EdgePos::FU).unwrap(), EdgePos::FU, "FU");
    assert_eq!(StickerCube::solved().edge_at(EdgePos::FR).unwrap(), EdgePos::FR, "FR");
    assert_eq!(StickerCube::solved().edge_at(EdgePos::FD).unwrap(), EdgePos::FD, "FD");
    assert_eq!(StickerCube::solved().edge_at(EdgePos::FL).unwrap(), EdgePos::FL, "FL");
    assert_eq!(StickerCube::solved().edge_at(EdgePos::RU).unwrap(), EdgePos::RU, "RU");
    assert_eq!(StickerCube::solved().edge_at(EdgePos::RB).unwrap(), EdgePos::RB, "RB");
    assert_eq!(StickerCube::solved().edge_at(EdgePos::RD).unwrap(), EdgePos::RD, "RD");
    assert_eq!(StickerCube::solved().edge_at(EdgePos::RF).unwrap(), EdgePos::RF, "RF");
    assert_eq!(StickerCube::solved().edge_at(EdgePos::BU).unwrap(), EdgePos::BU, "BU");
    assert_eq!(StickerCube::solved().edge_at(EdgePos::BL).unwrap(), EdgePos::BL, "BL");
    assert_eq!(StickerCube::solved().edge_at(EdgePos::BD).unwrap(), EdgePos::BD, "BD");
    assert_eq!(StickerCube::solved().edge_at(EdgePos::BR).unwrap(), EdgePos::BR, "BR");
    assert_eq!(StickerCube::solved().edge_at(EdgePos::DF).unwrap(), EdgePos::DF, "DF");
    assert_eq!(StickerCube::solved().edge_at(EdgePos::DR).unwrap(), EdgePos::DR, "DR");
    assert_eq!(StickerCube::solved().edge_at(EdgePos::DB).unwrap(), EdgePos::DB, "DB");
    assert_eq!(StickerCube::solved().edge_at(EdgePos::DL).unwrap(), EdgePos::DL, "DL");
}

#[test]
fn corners_on_solved_cube() {
    for pos in CORNER_POSITIONS {
        assert_eq!(StickerCube::solved().corner_at(pos), Ok(pos));
    }
}

#[test]
fn solved_stickers_show_their_faces() {
    let solved = StickerCube::solved();
    let stickers = [Sticker::S1, Sticker::S2, Sticker::S3, Sticker::S4, Sticker::S5, Sticker::S6];
    let faces = [Face::U, Face::L, Face::F, Face::R, Face::B, Face::D];
    assert_eq!(solved.centers, stickers);
    for i in 0..24 {
        assert_eq!(solved.edges[i], stickers[i / 4]);
        assert_eq!(solved.corners[i], stickers[i / 4]);
    }
    for i in 0..6 {
        assert_eq!(solved.sticker_to_face(stickers[i]), faces[i]);
        assert_eq!(solved.face_to_sticker(faces[i]), stickers[i]);
        assert_eq!(solved.find_face(stickers[i]), Some(faces[i]));
    }
    assert_eq!(StickerCube::from(CubieCube::solved()), solved);
}

#[test]
fn centers_give_the_colour_of_each_face() {
    let mut cube = StickerCube::solved();
    cube.centers = [
        Sticker::S6,
        Sticker::S2,
        Sticker::S5,
        Sticker::S4,
        Sticker::S3,
        Sticker::S1,
    ];
    assert_eq!(cube.sticker_to_face(Sticker::S1), Face::D);
    assert_eq!(cube.sticker_to_face(Sticker::S6), Face::U);
    assert_eq!(cube.sticker_to_face(Sticker::S3), Face::B);
    assert_eq!(cube.face_to_sticker(Face::F), Sticker::S5);
    assert_eq!(cube.edge_at(EdgePos::UF), Ok(EdgePos::DB));
    assert_eq!(cube.corner_at(CornerPos::UFR), Ok(CornerPos::DBR));
    cube.centers[0] = Sticker::S1;
    assert_eq!(cube.find_face(Sticker::S6), None);
    assert_eq!(cube.find_face(Sticker::S1), Some(Face::U));
    assert_eq!(cube.edge_at(EdgePos::DF), Err(StickerToPieceError::InvalidPiece));
}

#[test]
fn facelet_round_trip() {
    let mut cube = CubieCube::solved();
    let moves = [
        (Move333Type::R, 1u8),
        (Move333Type::U, 3),
        (Move333Type::F, 2),
        (Move333Type::L, 1),
        (Move333Type::D, 3),
        (Move333Type::B, 1),
        (Move333Type::U, 1),
        (Move333Type::R, 2),
    ];
    for round in 0..20 {
        for (k, &(ty, count)) in moves.iter().enumerate() {
            if (round + k) % 3 != 0 {
                cube = cube.make_move(Move333 { ty, count });
            }
            let stickers = StickerCube::from(cube);
            assert_eq!(CubieCube::try_from(stickers), Ok(cube));
            assert_eq!(CubieCube::from_sticker_cube(&stickers), Ok(cube));
            assert_eq!(StickerCube::from_cubie(&cube), stickers);
        }
    }
}

#[test]
fn facelet_round_trip_of_a_wrongly_assembled_cube() {
    let mut cube = CubieCube::solved();
    cube.co[2] = CornerTwist::Clockwise;
    cube.eo[5] = EdgeFlip::Flipped;
    cube.cp[0] = Corner::DBL;
    cube.ep[11] = Edge::UF;
    assert_eq!(CubieCube::try_from(StickerCube::from(cube)), Ok(cube));
}

#[test]
fn stickers_after_a_right_turn() {
    let cube = CubieCube::solved().make_move(Move333 { ty: Move333Type::R, count: 1 });
    let stickers = StickerCube::from(cube);
    // the edge that was at the front is now on top, and shows its front sticker there
    assert_eq!(stickers.edges[EdgePos::UR as usize], Sticker::S3);
    assert_eq!(stickers.edges[EdgePos::RU as usize], Sticker::S4);
    assert_eq!(stickers.edges[EdgePos::BR as usize], Sticker::S1);
    assert_eq!(stickers.edges[EdgePos::UF as usize], Sticker::S1);
    assert_eq!(stickers.edge_at(EdgePos::UR), Ok(EdgePos::FR));
    assert_eq!(stickers.edge_at(EdgePos::RU), Ok(EdgePos::RF));
    // the corner slot at the top front right holds the corner DFR, twisted
    assert_eq!(cube.cp[0], Corner::DFR);
    assert_eq!(cube.co[0], CornerTwist::AntiClockwise);
    assert_eq!(stickers.corner_at(CornerPos::UFR), Ok(CornerPos::RDF));
    assert_eq!(stickers.corners[CornerPos::UFR as usize], Sticker::S4);
    assert_eq!(stickers.corners[CornerPos::FUR as usize], Sticker::S3);
    assert_eq!(stickers.corners[CornerPos::RUF as usize], Sticker::S6);
    // the left side is as on the solved cube
    assert_eq!(stickers.corners[CornerPos::UFL as usize], Sticker::S1);
    assert_eq!(stickers.corner_at(CornerPos::LUF), Ok(CornerPos::LUF));
}

#[test]
fn placing_pieces_writes_their_stickers() {
    let mut cube = StickerCube::solved();
    cube.place_edge(EdgePos::FU, EdgePos::DB);
    assert_eq!(cube.edges[EdgePos::DB as usize], Sticker::S3);
    assert_eq!(cube.edges[EdgePos::BD as usize], Sticker::S1);
    assert_eq!(cube.edge_at(EdgePos::DB), Ok(EdgePos::FU));
    assert_eq!(cube.edge_at(EdgePos::BD), Ok(EdgePos::UF));
    cube.place_corner(CornerPos::RUF, CornerPos::DBL);
    assert_eq!(cube.corners[CornerPos::DBL as usize], Sticker::S4);
    assert_eq!(cube.corners[CornerPos::LDB as usize], Sticker::S1);
    assert_eq!(cube.corners[CornerPos::BDL as usize], Sticker::S3);
    assert_eq!(cube.corner_at(CornerPos::DBL), Ok(CornerPos::RUF));
    let solved = StickerCube::solved();
    for i in 0..24 {
        if i != EdgePos::DB as usize && i != EdgePos::BD as usize {
            assert_eq!(cube.edges[i], solved.edges[i]);
        }
    }
}

#[test]
fn bad_stickers_name_the_first_bad_slot() {
    let mut stickers = StickerCube::solved();
    // two stickers of one colour on an edge
    stickers.edges[EdgePos::BU as usize] = Sticker::S1;
    assert_eq!(stickers.edge_at(EdgePos::UB), Err(StickerToPieceError::InvalidPiece));
    assert_eq!(stickers.edge_at(EdgePos::BU), Err(StickerToPieceError::InvalidPiece));
    assert_eq!(CubieCube::try_from(stickers), Err(StickerToCubieError::BadEdge(Edge::UB)));
    // stickers of opposite faces on an edge
    stickers.edges[EdgePos::FU as usize] = Sticker::S6;
    assert_eq!(stickers.edge_at(EdgePos::UF), Err(StickerToPieceError::InvalidPiece));
    assert_eq!(CubieCube::try_from(stickers), Err(StickerToCubieError::BadEdge(Edge::UF)));
    // a bad corner is named before any bad edge
    stickers.corners[CornerPos::FDL as usize] = Sticker::S6;
    assert_eq!(stickers.corner_at(CornerPos::DFL), Err(StickerToPieceError::InvalidPiece));
    assert_eq!(CubieCube::try_from(stickers), Err(StickerToCubieError::BadCorner(Corner::DFL)));
    stickers.corners[CornerPos::RUB as usize] = Sticker::S1;
    assert_eq!(CubieCube::try_from(stickers), Err(StickerToCubieError::BadCorner(Corner::UBR)));
    assert_eq!(
        CubieCube::from_sticker_cube(&stickers),
        Err(StickerToCubieError::BadCorner(Corner::UBR))
    );
    // a stickering that is no cube but whose slots all hold pieces is read as it is
    let mut twice = StickerCube::solved();
    twice.edges[EdgePos::UB as usize] = Sticker::S6;
    assert_eq!(twice.edge_at(EdgePos::UB), Ok(EdgePos::DB));
    let cube = CubieCube::try_from(twice).unwrap();
    assert_eq!(cube.ep[2], Edge::DB);
    assert!(!cube.is_valid());
}
