use cube_lib::cube333::corner::{Corner, CornerPos, CornerTwist, CORNER_POSITIONS, CORNER_TWISTS};
use cube_lib::cube333::edge::{Edge, EdgeFlip, EdgePos, EDGE_FLIPS, EDGE_POSITIONS};
use cube_lib::cube333::{Face, Sticker, StickerToPieceError, FACES, STICKERS};
use cube_lib::TryFromIntToEnumError;

#[test]
fn indices_follow_the_order_of_declaration() {
    for (i, c) in Corner::ARRAY.into_iter().enumerate() {
        assert_eq!(u8::from(c) as usize, i);
        assert_eq!(c.to_index(), i);
        assert_eq!(Corner::try_from(i as u8), Ok(c));
    }
    for (i, e) in Edge::ARRAY.into_iter().enumerate() {
        assert_eq!(u8::from(e) as usize, i);
        assert_eq!(e.to_index(), i);
        assert_eq!(Edge::try_from(i as u8), Ok(e));
    }
    for (i, t) in CORNER_TWISTS.into_iter().enumerate() {
        assert_eq!(u8::from(t) as usize, i);
        assert_eq!(t.to_index(), i);
        assert_eq!(CornerTwist::try_from(i as u8), Ok(t));
    }
    for (i, f) in EDGE_FLIPS.into_iter().enumerate() {
        assert_eq!(u8::from(f) as usize, i);
        assert_eq!(f.to_index(), i);
        assert_eq!(EdgeFlip::try_from(i as u8), Ok(f));
    }
    for (i, p) in CORNER_POSITIONS.into_iter().enumerate() {
        assert_eq!(usize::from(p), i);
        assert_eq!(p.to_index(), i);
    }
    for (i, p) in EDGE_POSITIONS.into_iter().enumerate() {
        assert_eq!(usize::from(p), i);
        assert_eq!(p.to_index(), i);
    }
    for (i, f) in FACES.into_iter().enumerate() {
        assert_eq!(usize::from(f), i);
        assert_eq!(f.to_index(), i);
        assert_eq!(Face::try_from(i), Ok(f));
        assert_eq!(STICKERS[i].to_index(), i);
    }
    assert_eq!(Corner::UFR as u8, 0);
    assert_eq!(Corner::DBR as u8, 7);
    assert_eq!(Edge::UF as u8, 0);
    assert_eq!(Edge::BR as u8, 11);
    assert_eq!(CornerPos::UBL as u8, 0);
    assert_eq!(CornerPos::DFL as u8, 23);
    assert_eq!(EdgePos::UB as u8, 0);
    assert_eq!(EdgePos::DL as u8, 23);
    assert_eq!(STICKERS[5], Sticker::S6);
}

#[test]
fn integers_out_of_range_are_no_tags() {
    assert_eq!(Corner::try_from(8), Err(TryFromIntToEnumError::OutOfBounds));
    assert_eq!(Corner::try_from(255), Err(TryFromIntToEnumError::OutOfBounds));
    assert_eq!(Edge::try_from(12), Err(TryFromIntToEnumError::OutOfBounds));
    assert_eq!(CornerTwist::try_from(3), Err(TryFromIntToEnumError::OutOfBounds));
    assert_eq!(EdgeFlip::try_from(2), Err(TryFromIntToEnumError::OutOfBounds));
    assert_eq!(Face::try_from(6), Err(TryFromIntToEnumError::OutOfBounds));
    assert_eq!(Face::try_from(usize::MAX), Err(TryFromIntToEnumError::OutOfBounds));
}

#[test]
fn twists_form_the_group_of_three() {
    let oriented = CornerTwist::Oriented;
    let clockwise = CornerTwist::Clockwise;
    let anticlockwise = CornerTwist::AntiClockwise;
    assert_eq!(oriented.twist_by(oriented), oriented);
    assert_eq!(oriented.twist_by(clockwise), clockwise);
    assert_eq!(clockwise.twist_by(clockwise), anticlockwise);
    assert_eq!(clockwise.twist_by(anticlockwise), oriented);
    assert_eq!(anticlockwise.twist_by(anticlockwise), clockwise);
    assert_eq!(clockwise.inverse(), anticlockwise);
    assert_eq!(anticlockwise.inverse(), clockwise);
    assert_eq!(oriented.inverse(), oriented);
    for a in CORNER_TWISTS {
        assert_eq!(a.twist_by(a.inverse()), oriented);
        for b in CORNER_TWISTS {
            assert_eq!(a.twist_by(b), b.twist_by(a));
            for c in CORNER_TWISTS {
                assert_eq!(a.twist_by(b).twist_by(c), a.twist_by(b.twist_by(c)));
            }
        }
    }
}

#[test]
fn flips_form_the_group_of_two() {
    let oriented = EdgeFlip::Oriented;
    let flipped = EdgeFlip::Flipped;
    assert_eq!(oriented.flip_by(oriented), oriented);
    assert_eq!(oriented.flip_by(flipped), flipped);
    assert_eq!(flipped.flip_by(oriented), flipped);
    assert_eq!(flipped.flip_by(flipped), oriented);
}

#[test]
fn corner_facelets_by_piece_and_twist() {
    assert_eq!(CornerPos::from(Corner::UFR), CornerPos::UFR);
    assert_eq!(CornerPos::from(Corner::DBL), CornerPos::DBL);
    assert_eq!(CornerPos::from((Corner::UFR, CornerTwist::Clockwise)), CornerPos::RUF);
    assert_eq!(CornerPos::from((Corner::UFR, CornerTwist::AntiClockwise)), CornerPos::FUR);
    assert_eq!(CornerPos::from((Corner::DBR, CornerTwist::Clockwise)), CornerPos::RDB);
    assert_eq!(CornerPos::from((Corner::DFL, CornerTwist::AntiClockwise)), CornerPos::FDL);
    assert_eq!(CornerPos::LDB.piece(), Corner::DBL);
    assert_eq!(CornerPos::LDB.ud_orientation(), CornerTwist::AntiClockwise);
    assert_eq!(CornerPos::BUR.piece(), Corner::UBR);
    assert_eq!(CornerPos::BUR.ud_orientation(), CornerTwist::Clockwise);
    for p in CORNER_POSITIONS {
        assert_eq!(CornerPos::from((p.piece(), p.ud_orientation())), p);
    }
    for c in Corner::ARRAY {
        for t in CORNER_TWISTS {
            let p = CornerPos::from((c, t));
            assert_eq!(p.piece(), c);
            assert_eq!(p.ud_orientation(), t);
        }
    }
}

#[test]
fn corner_facelets_and_their_faces() {
    assert_eq!(CornerPos::UBL.faces(), (Face::U, Face::L, Face::B));
    assert_eq!(CornerPos::FDR.faces(), (Face::F, Face::R, Face::D));
    let faces: (Face, Face, Face) = CornerPos::DFL.into();
    assert_eq!(faces, (Face::D, Face::L, Face::F));
    assert_eq!(Face::from(CornerPos::RUB), Face::R);
    assert_eq!(CornerPos::RUB.face(), Face::R);
    assert_eq!(CornerPos::UFR.clockwise(), CornerPos::FUR);
    assert_eq!(CornerPos::UFR.anticlockwise(), CornerPos::RUF);
    assert_eq!(CornerPos::LDB.clockwise(), CornerPos::BDL);
    assert_eq!(CornerPos::LDB.anticlockwise(), CornerPos::DBL);
    for p in CORNER_POSITIONS {
        let (f1, f2, f3) = p.faces();
        assert_eq!(p.clockwise().faces(), (f3, f1, f2));
        assert_eq!(p.anticlockwise().faces(), (f2, f3, f1));
        assert_eq!(p.clockwise().anticlockwise(), p);
        assert_eq!(p.clockwise().clockwise().clockwise(), p);
        assert_eq!(p.clockwise().piece(), p.piece());
        assert_eq!(CornerPos::try_from((f1, f2, f3)), Ok(p));
        assert_eq!(CornerPos::try_from((f1, f3, f2)), Ok(p));
    }
}

#[test]
fn faces_that_make_no_corner() {
    let mut valid = 0;
    for f1 in FACES {
        for f2 in FACES {
            for f3 in FACES {
                match CornerPos::try_from((f1, f2, f3)) {
                    Ok(p) => {
                        valid += 1;
                        assert_eq!(p.face(), f1);
                    }
                    Err(e) => assert_eq!(e, StickerToPieceError::InvalidPiece),
                }
            }
        }
    }
    assert_eq!(valid, 48);
    assert_eq!(
        CornerPos::try_from((Face::U, Face::D, Face::F)),
        Err(StickerToPieceError::InvalidPiece)
    );
    assert_eq!(
        CornerPos::try_from((Face::U, Face::U, Face::F)),
        Err(StickerToPieceError::InvalidPiece)
    );
    assert_eq!(
        CornerPos::try_from((Face::L, Face::R, Face::U)),
        Err(StickerToPieceError::InvalidPiece)
    );
}

#[test]
fn edge_facelets_by_piece_and_flip() {
    assert_eq!(EdgePos::from(Edge::UF), EdgePos::UF);
    assert_eq!(EdgePos::from(Edge::BL), EdgePos::BL);
    assert_eq!(EdgePos::from((Edge::UF, EdgeFlip::Flipped)), EdgePos::FU);
    assert_eq!(EdgePos::from((Edge::FR, EdgeFlip::Flipped)), EdgePos::RF);
    assert_eq!(EdgePos::from((Edge::DB, EdgeFlip::Oriented)), EdgePos::DB);
    assert_eq!(EdgePos::LF.piece(), Edge::FL);
    assert_eq!(EdgePos::LF.fb_orientation(), EdgeFlip::Flipped);
    assert_eq!(EdgePos::BR.piece(), Edge::BR);
    assert_eq!(EdgePos::BR.fb_orientation(), EdgeFlip::Oriented);
    for p in EDGE_POSITIONS {
        assert_eq!(EdgePos::from((p.piece(), p.fb_orientation())), p);
    }
    for e in Edge::ARRAY {
        for f in EDGE_FLIPS {
            let p = EdgePos::from((e, f));
            assert_eq!(p.piece(), e);
            assert_eq!(p.fb_orientation(), f);
        }
    }
}

#[test]
fn edge_facelets_and_their_faces() {
    assert_eq!(EdgePos::UB.faces(), (Face::U, Face::B));
    assert_eq!(EdgePos::RF.faces(), (Face::R, Face::F));
    let faces: (Face, Face) = EdgePos::DL.into();
    assert_eq!(faces, (Face::D, Face::L));
    assert_eq!(Face::from(EdgePos::BD), Face::B);
    assert_eq!(EdgePos::BD.face(), Face::B);
    assert_eq!(EdgePos::UB.flip(), EdgePos::BU);
    assert_eq!(EdgePos::FR.flip(), EdgePos::RF);
    assert_eq!(EdgePos::LD.flip(), EdgePos::DL);
    let mut valid = 0;
    for f1 in FACES {
        for f2 in FACES {
            match EdgePos::try_from((f1, f2)) {
                Ok(p) => {
                    valid += 1;
                    assert_eq!(p.faces(), (f1, f2));
                    assert_eq!(p.flip().faces(), (f2, f1));
                    assert_eq!(p.flip().flip(), p);
                    assert_eq!(p.flip().piece(), p.piece());
                    assert_ne!(p.flip().fb_orientation(), p.fb_orientation());
                }
                Err(e) => assert_eq!(e, StickerToPieceError::InvalidPiece),
            }
        }
    }
    assert_eq!(valid, 24);
    assert_eq!(EdgePos::try_from((Face::U, Face::D)), Err(StickerToPieceError::InvalidPiece));
    assert_eq!(EdgePos::try_from((Face::F, Face::F)), Err(StickerToPieceError::InvalidPiece));
}
