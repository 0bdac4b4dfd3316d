use cube_lib::cube333::coordcube::{CoordCube, COCoord, CPCoord, EOCoord, EPCoord};
use cube_lib::cube333::coordcube::{from_o_coord, from_p_coord, to_o_coord, to_p_coord};
use cube_lib::cube333::corner::{Corner, CornerTwist};
use cube_lib::cube333::edge::EdgeFlip;
use cube_lib::cube333::moves::{Move333, Move333Type};
use cube_lib::cube333::CubieCube;

fn mv(ty: Move333Type, count: u8) -> Move333 {
    Move333 { ty, count }
}

#[test]
fn invertable_conversion() {
    assert_eq!(CubieCube::solved().to_coord().unwrap(), CoordCube::solved());
    assert_eq!(CoordCube::solved().to_cubie(), CubieCube::solved());
    let mut cube = CubieCube::solved();
    for _ in 0..10 {
        cube = cube.make_move(mv(Move333Type::U, 1));
        cube = cube.make_move(mv(Move333Type::F, 1));
    }
    assert_eq!(cube.to_coord().unwrap().to_cubie(), cube);
}

#[test]
fn coordinates_after_ten_times_u_f() {
    let mut cube = CubieCube::solved();
    for _ in 0..10 {
        cube = cube.make_move(mv(Move333Type::U, 1));
        cube = cube.make_move(mv(Move333Type::F, 1));
    }
    let coord = cube.to_coord().unwrap();
    assert_eq!(coord.co.get(), 1092);
    assert_eq!(coord.cp.get(), 0);
    assert_eq!(coord.eo.get(), 1286);
    assert_eq!(coord.ep.get(), 2471371);
}

#[test]
fn orientation_rank_is_horner_over_all_but_the_last_digit() {
    assert_eq!(to_o_coord::<8, 3>(&[0, 0, 0, 0, 0, 0, 0, 0]), 0);
    assert_eq!(to_o_coord::<8, 3>(&[0, 0, 0, 0, 0, 0, 1, 2]), 1);
    assert_eq!(to_o_coord::<8, 3>(&[1, 0, 0, 0, 0, 0, 0, 2]), 729);
    assert_eq!(to_o_coord::<8, 3>(&[2, 2, 2, 2, 2, 2, 2, 1]), 2186);
    assert_eq!(to_o_coord::<12, 2>(&[1, 1, 1, 1, 1, 1, 1, 1, 1, 1, 1, 1]), 2047);
    assert_eq!(to_o_coord::<4, 3>(&[1, 2, 0, 0]), 15);
}

#[test]
fn orientation_unrank_balances_the_last_digit() {
    assert_eq!(from_o_coord::<8, 3>(0), [0, 0, 0, 0, 0, 0, 0, 0]);
    assert_eq!(from_o_coord::<8, 3>(1), [0, 0, 0, 0, 0, 0, 1, 2]);
    assert_eq!(from_o_coord::<8, 3>(2), [0, 0, 0, 0, 0, 0, 2, 1]);
    assert_eq!(from_o_coord::<8, 3>(729), [1, 0, 0, 0, 0, 0, 0, 2]);
    assert_eq!(from_o_coord::<8, 3>(2186), [2, 2, 2, 2, 2, 2, 2, 1]);
    assert_eq!(from_o_coord::<12, 2>(1), [0, 0, 0, 0, 0, 0, 0, 0, 0, 0, 1, 1]);
    assert_eq!(from_o_coord::<1, 3>(0), [0]);
}

#[test]
fn orientation_round_trip_over_every_rank() {
    for r in 0..2187u16 {
        let v = from_o_coord::<8, 3>(r);
        assert_eq!(v.iter().map(|&d| d as u32).sum::<u32>() % 3, 0);
        assert_eq!(to_o_coord::<8, 3>(&v), r);
    }
    for r in 0..2048u16 {
        let v = from_o_coord::<12, 2>(r);
        assert_eq!(v.iter().map(|&d| d as u32).sum::<u32>() % 2, 0);
        assert_eq!(to_o_coord::<12, 2>(&v), r);
    }
}

#[test]
fn permutation_rank_is_the_lehmer_code() {
    assert_eq!(to_p_coord::<8>(&[0, 1, 2, 3, 4, 5, 6, 7]), 0);
    assert_eq!(to_p_coord::<8>(&[1, 0, 2, 3, 4, 5, 6, 7]), 1);
    assert_eq!(to_p_coord::<8>(&[0, 2, 1, 3, 4, 5, 6, 7]), 2);
    assert_eq!(to_p_coord::<8>(&[7, 6, 5, 4, 3, 2, 1, 0]), 40319);
    assert_eq!(to_p_coord::<3>(&[2, 0, 1]), 3);
    assert_eq!(to_p_coord::<12>(&[11, 10, 9, 8, 7, 6, 5, 4, 3, 2, 1, 0]), 479001599);
    assert_eq!(to_p_coord::<0>(&[]), 0);
}

#[test]
fn permutation_unrank_picks_from_the_pool() {
    assert_eq!(from_p_coord::<8>(0), [0, 1, 2, 3, 4, 5, 6, 7]);
    assert_eq!(from_p_coord::<8>(1), [1, 0, 2, 3, 4, 5, 6, 7]);
    assert_eq!(from_p_coord::<8>(2), [0, 2, 1, 3, 4, 5, 6, 7]);
    assert_eq!(from_p_coord::<8>(40319), [7, 6, 5, 4, 3, 2, 1, 0]);
    assert_eq!(from_p_coord::<3>(3), [2, 0, 1]);
    assert_eq!(from_p_coord::<12>(479001599), [11, 10, 9, 8, 7, 6, 5, 4, 3, 2, 1, 0]);
}

#[test]
fn permutation_round_trip_over_every_rank_of_eight() {
    for r in 0..40320u32 {
        let p = from_p_coord::<8>(r);
        let mut seen = [false; 8];
        for &x in p.iter() {
            assert!(!seen[x as usize]);
            seen[x as usize] = true;
        }
        assert_eq!(to_p_coord::<8>(&p), r);
    }
}

#[test]
fn permutation_round_trip_over_ranks_of_twelve() {
    let mut r: u32 = 0;
    while r < 479001600 {
        let p = from_p_coord::<12>(r);
        assert_eq!(to_p_coord::<12>(&p), r);
        r += 1_000_003;
    }
    let p = [3u8, 0, 11, 5, 7, 1, 10, 2, 9, 4, 6, 8];
    assert_eq!(from_p_coord::<12>(to_p_coord::<12>(&p)), p);
}

#[test]
fn coordinates_are_checked_against_their_order() {
    assert!(COCoord::new(2186).is_some());
    assert!(COCoord::new(2187).is_none());
    assert!(CPCoord::new(40319).is_some());
    assert!(CPCoord::new(40320).is_none());
    assert!(EOCoord::new(2047).is_some());
    assert!(EOCoord::new(2048).is_none());
    assert!(EPCoord::new(479001599).is_some());
    assert!(EPCoord::new(479001600).is_none());
    assert_eq!(usize::from(EPCoord::new(479001599).unwrap()), 479001599);
    assert_eq!(COCoord::default().get(), 0);
}

#[test]
fn coord_round_trip_from_coordinates() {
    let coord = CoordCube {
        co: COCoord::new(1234).unwrap(),
        cp: CPCoord::new(4321).unwrap(),
        eo: EOCoord::new(999).unwrap(),
        ep: EPCoord::new(123456789).unwrap(),
    };
    let cube = coord.to_cubie();
    assert!(cube.is_valid());
    assert_eq!(cube.co_parity(), CornerTwist::Oriented);
    assert_eq!(cube.eo_parity(), EdgeFlip::Oriented);
    match cube.to_coord() {
        Ok(back) => assert_eq!(back, coord),
        Err(e) => {
            assert!(e.perm);
            assert_eq!(e.co, CornerTwist::Oriented);
            assert_eq!(e.eo, EdgeFlip::Oriented);
        }
    }
}

#[test]
fn a_twisted_corner_is_reported() {
    let mut cube = CubieCube::solved();
    cube.co[3] = CornerTwist::Clockwise;
    assert!(cube.illegal());
    let e = cube.to_coord().unwrap_err();
    assert_eq!(e.co, CornerTwist::Clockwise);
    assert_eq!(e.eo, EdgeFlip::Oriented);
    assert!(!e.perm);
    cube.co[3] = CornerTwist::AntiClockwise;
    let e = cube.to_coord().unwrap_err();
    assert_eq!(e.co, CornerTwist::AntiClockwise);
}

#[test]
fn a_flipped_edge_is_reported() {
    let mut cube = CubieCube::solved().make_move(mv(Move333Type::R, 1));
    cube.eo[7] = cube.eo[7].flip_by(EdgeFlip::Flipped);
    let e = cube.to_coord().unwrap_err();
    assert_eq!(e.eo, EdgeFlip::Flipped);
    assert_eq!(e.co, CornerTwist::Oriented);
    assert!(!e.perm);
}

#[test]
fn two_exchanged_corners_are_reported() {
    let mut cube = CubieCube::solved();
    cube.cp[0] = Corner::UFL;
    cube.cp[1] = Corner::UFR;
    assert!(cube.is_valid());
    assert!(cube.perm_parity());
    let e = cube.to_coord().unwrap_err();
    assert!(e.perm);
    assert_eq!(e.co, CornerTwist::Oriented);
    assert_eq!(e.eo, EdgeFlip::Oriented);
}

#[test]
fn ranks_beyond_the_order_count_modulo_the_order() {
    assert_eq!(from_o_coord::<8, 3>(2187), [0, 0, 0, 0, 0, 0, 0, 0]);
    assert_eq!(from_o_coord::<8, 3>(2188), from_o_coord::<8, 3>(1));
    assert_eq!(from_o_coord::<12, 2>(2048 + 5), from_o_coord::<12, 2>(5));
    assert_eq!(from_p_coord::<8>(40320), from_p_coord::<8>(0));
    assert_eq!(from_p_coord::<8>(40320 + 77), from_p_coord::<8>(77));
    assert_eq!(from_p_coord::<3>(6 + 4), [1, 2, 0]);
}

#[test]
fn ranks_of_sequences_that_are_no_permutations() {
    // the rank counts, for each position, the earlier elements that are greater
    assert_eq!(to_p_coord::<8>(&[0, 0, 0, 0, 0, 0, 0, 0]), 0);
    assert_eq!(to_p_coord::<4>(&[3, 3, 1, 1]), 2 * 2 + 2 * 6);
    // and the orientation rank does not look at the last digit
    assert_eq!(to_o_coord::<8, 3>(&[0, 0, 0, 0, 0, 0, 1, 0]), 1);
    assert_eq!(to_o_coord::<8, 3>(&[0, 0, 0, 0, 0, 0, 1, 1]), 1);
}

#[test]
fn the_last_corner_orientation_follows_from_the_others() {
    let mut cube = CubieCube::solved();
    cube.co[0] = CornerTwist::Clockwise;
    cube.co[7] = CornerTwist::AntiClockwise;
    let coord = cube.to_coord().unwrap();
    assert_eq!(coord.co.get(), 729);
    assert_eq!(coord.to_cubie(), cube);
    cube.co[0] = CornerTwist::Oriented;
    cube.co[6] = CornerTwist::Clockwise;
    assert_eq!(cube.to_coord().unwrap().co.get(), 1);
}
