use cube_lib::cube333::corner::{Corner, CornerTwist};
use cube_lib::cube333::edge::{Edge, EdgeFlip};
use cube_lib::cube333::moves::{Move333, Move333Type, MOVE_TYPES};
use cube_lib::cube333::CubieCube;

#[test]
fn r_loop() {
    let mut cube = CubieCube::solved();
    for _ in 0..4 {
        cube = cube.make_move(Move333 {
            ty: Move333Type::B,
            count: 1,
        });
    }
    assert_eq!(cube, CubieCube::solved());
}

#[test]
fn moves_r_loop() {
    let mut cube = CubieCube {
        co: [CornerTwist::Oriented; 8],
        cp: [Corner::UFR; 8],
        eo: [EdgeFlip::Oriented; 12],
        ep: [Edge::UF; 12],
    };
    for _ in 0..4 {
        cube = cube.make_move(Move333 {
            ty: Move333Type::R,
            count: 1,
        });
    }
    assert_eq!(
        cube,
        CubieCube {
            co: [CornerTwist::Oriented; 8],
            cp: [Corner::UFR; 8],
            eo: [EdgeFlip::Oriented; 12],
            ep: [Edge::UF; 12],
        }
    );
}

#[test]
fn every_quarter_turn_has_order_four() {
    let mut start = CubieCube::solved();
    start = start.make_move(Move333 { ty: Move333Type::R, count: 1 });
    start = start.make_move(Move333 { ty: Move333Type::U, count: 3 });
    start = start.make_move(Move333 { ty: Move333Type::F, count: 2 });
    for ty in MOVE_TYPES {
        for count in [1u8, 3] {
            let mut cube = start;
            for k in 0..4 {
                cube = cube.make_move(Move333 { ty, count });
                if k < 3 {
                    assert_ne!(cube, start);
                }
            }
            assert_eq!(cube, start);
        }
        let half = Move333 { ty, count: 2 };
        assert_ne!(start.make_move(half), start);
        assert_eq!(start.make_move(half).make_move(half), start);
    }
}

#[test]
fn a_move_is_its_count_of_quarter_turns() {
    let cube = CubieCube::solved().make_move(Move333 { ty: Move333Type::L, count: 1 });
    for ty in MOVE_TYPES {
        let mut by_quarters = cube;
        for count in 0..9u8 {
            assert_eq!(cube.make_move(Move333 { ty, count }), by_quarters);
            by_quarters = by_quarters.make_move_type(ty);
        }
    }
}

#[test]
fn right_turn_moves_the_right_pieces() {
    let cube = CubieCube::solved().make_move_type(Move333Type::R);
    assert_eq!(
        cube.cp,
        [
            Corner::DFR,
            Corner::UFL,
            Corner::UBL,
            Corner::UFR,
            Corner::DBR,
            Corner::DFL,
            Corner::DBL,
            Corner::UBR
        ]
    );
    assert_eq!(
        cube.co,
        [
            CornerTwist::AntiClockwise,
            CornerTwist::Oriented,
            CornerTwist::Oriented,
            CornerTwist::Clockwise,
            CornerTwist::Clockwise,
            CornerTwist::Oriented,
            CornerTwist::Oriented,
            CornerTwist::AntiClockwise
        ]
    );
    assert_eq!(
        cube.ep,
        [
            Edge::UF,
            Edge::UL,
            Edge::UB,
            Edge::FR,
            Edge::DF,
            Edge::DL,
            Edge::DB,
            Edge::BR,
            Edge::DR,
            Edge::FL,
            Edge::BL,
            Edge::UR
        ]
    );
    assert_eq!(cube.eo, [EdgeFlip::Oriented; 12]);
}

#[test]
fn front_turn_flips_its_edges() {
    let cube = CubieCube::solved().make_move_type(Move333Type::F);
    let flipped = [0usize, 4, 8, 9];
    for i in 0..12 {
        let expected = if flipped.contains(&i) { EdgeFlip::Flipped } else { EdgeFlip::Oriented };
        assert_eq!(cube.eo[i], expected);
    }
}

#[test]
fn moves_keep_a_legal_cube_legal() {
    let mut cube = CubieCube::solved();
    let mut seed: u32 = 12345;
    for _ in 0..500 {
        seed = seed.wrapping_mul(1664525).wrapping_add(1013904223);
        let ty = MOVE_TYPES[((seed >> 16) % 6) as usize];
        let count = ((seed >> 8) % 3) as u8 + 1;
        cube = cube.make_move(Move333 { ty, count });
        assert!(cube.is_valid());
        assert!(!cube.illegal());
        assert!(cube.to_coord().is_ok());
    }
}

#[test]
fn quarter_turns_flip_both_parities() {
    let solved = CubieCube::solved();
    assert!(!solved.cp_parity());
    assert!(!solved.ep_parity());
    for ty in MOVE_TYPES {
        let cube = solved.make_move_type(ty);
        assert!(cube.cp_parity());
        assert!(cube.ep_parity());
        assert!(!cube.perm_parity());
    }
}
