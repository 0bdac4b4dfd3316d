use cube_lib::cube333::coordcube::CubieToCoordError;
use cube_lib::cube333::corner::{Corner, CornerTwist};
use cube_lib::cube333::edge::{Edge, EdgeFlip};
use cube_lib::cube333::moves::{decimal, Move333, Move333Type};

#[test]
fn corners_and_edges_have_names() {
    let corners = ["UFR", "UFL", "UBL", "UBR", "DFR", "DFL", "DBL", "DBR"];
    for (i, c) in Corner::ARRAY.into_iter().enumerate() {
        assert_eq!(c.name(), corners[i]);
        assert_eq!(c.to_string(), corners[i]);
        assert_eq!(format!("{:?}", c), corners[i]);
    }
    let edges = ["UF", "UL", "UB", "UR", "DF", "DL", "DB", "DR", "FR", "FL", "BL", "BR"];
    for (i, e) in Edge::ARRAY.into_iter().enumerate() {
        assert_eq!(e.name(), edges[i]);
        assert_eq!(e.to_string(), edges[i]);
        assert_eq!(format!("{:?}", e), edges[i]);
    }
}

#[test]
fn moves_are_written_in_the_usual_notation() {
    let mv = |ty, count| Move333 { ty, count };
    assert_eq!(mv(Move333Type::R, 1).notation(), "R");
    assert_eq!(mv(Move333Type::U, 3).notation(), "U'");
    assert_eq!(mv(Move333Type::F, 2).notation(), "F2");
    assert_eq!(mv(Move333Type::B, 0).notation(), "B0");
    assert_eq!(mv(Move333Type::L, 4).notation(), "L4");
    assert_eq!(mv(Move333Type::D, 255).notation(), "D255");
    assert_eq!(Move333Type::D.name(), "D");
}

#[test]
fn decimal_writes_every_byte() {
    for n in 0..=255u8 {
        assert_eq!(decimal(n), format!("{}", n));
    }
}

#[test]
fn illegality_is_told_line_by_line() {
    let all = CubieToCoordError {
        eo: EdgeFlip::Flipped,
        co: CornerTwist::Clockwise,
        perm: true,
    };
    assert_eq!(
        all.to_string(),
        "This cube has a flipped edge!\nThis cube has a clockwise twisted corner!\nThis cube has permutation parity!\n"
    );
    let twist = CubieToCoordError {
        eo: EdgeFlip::Oriented,
        co: CornerTwist::AntiClockwise,
        perm: false,
    };
    assert_eq!(twist.to_string(), "This cube has an anticlockwise twisted corner!\n");
    let parity = CubieToCoordError { eo: EdgeFlip::Oriented, co: CornerTwist::Oriented, perm: true };
    assert_eq!(parity.to_string(), "This cube has permutation parity!\n");
    let none = CubieToCoordError { eo: EdgeFlip::Oriented, co: CornerTwist::Oriented, perm: false };
    assert_eq!(none.to_string(), "");
}
