use cube_lib::cube333::moves::{Fr, Htm, Htr, Move333, Move333Type, MoveGenerator};
use cube_lib::cube333::search::{extended, follow, reversed, search, solve, value_of, GeneratorSet};
use cube_lib::cube333::corner::CornerTwist;
use cube_lib::cube333::CubieCube;

fn mv(ty: Move333Type, count: u8) -> Move333 {
    Move333 { ty, count }
}

fn after(moves: &[Move333]) -> CubieCube {
    let mut cube = CubieCube::solved();
    for &m in moves {
        cube = cube.make_move(m);
    }
    cube
}

#[test]
fn keys_tell_cubes_apart() {
    assert_eq!(CubieCube::solved().key(), 12504238279052533893779);
    assert_eq!(
        CubieCube::solved().key(),
        ((0u128 * 16777216 + 0o01234567) * 4096 + 0) * 8916100448256 + 73686780563
    );
    let mut seen = std::collections::HashSet::new();
    let mut cube = CubieCube::solved();
    let mut seed: u32 = 5;
    for _ in 0..2000 {
        seed = seed.wrapping_mul(1664525).wrapping_add(1013904223);
        cube = cube.make_move(Htm::move_at(((seed >> 16) % 18) as usize));
        let fresh = seen.insert(cube);
        let mut twisted = cube;
        twisted.co[0] = twisted.co[0].twist_by(CornerTwist::Clockwise);
        assert_ne!(cube.key(), twisted.key());
        if fresh {
            assert!(cube.key() < 1 << 92);
        }
    }
    let keys: std::collections::HashSet<u128> = seen.iter().map(|c| c.key()).collect();
    assert_eq!(keys.len(), seen.len());
}

#[test]
fn value_of_reads_digits() {
    assert_eq!(value_of::<3>(&[1, 2, 3], 10), 123);
    assert_eq!(value_of::<8>(&[0, 1, 2, 3, 4, 5, 6, 7], 8), 0o01234567);
    assert_eq!(value_of::<12>(&[11; 12], 12), 8916100448255);
    assert_eq!(value_of::<0>(&[], 7), 0);
}

#[test]
fn a_set_holds_what_was_put_into_it() {
    let mut set = GeneratorSet::new();
    assert_eq!(set.len(), 0);
    let r = after(&[mv(Move333Type::R, 1)]);
    assert!(!set.contains(&r));
    assert!(set.insert(r));
    assert!(!set.insert(r));
    assert!(set.contains(&r));
    assert!(!set.contains(&CubieCube::solved()));
    assert!(set.insert(CubieCube::solved()));
    assert_eq!(set.len(), 2);
    assert_eq!(set.cube(0), r);
    assert_eq!(set.cube(1), CubieCube::solved());
    let mut other = GeneratorSet::solved_set();
    other.insert(after(&[mv(Move333Type::U, 2)]));
    set.extend(&other);
    assert_eq!(set.len(), 3);
    assert!(set.contains(&after(&[mv(Move333Type::U, 2)])));
}

#[test]
fn the_solved_set_holds_the_solved_cube() {
    let set = GeneratorSet::solved_set();
    assert_eq!(set.len(), 1);
    assert!(set.contains(&CubieCube::solved()));
    assert!(!set.contains(&after(&[mv(Move333Type::F, 2)])));
}

#[test]
fn the_slice_set() {
    let set = GeneratorSet::slice_set();
    assert!(set.contains(&CubieCube::solved()));
    let r2 = mv(Move333Type::R, 2);
    let l2 = mv(Move333Type::L, 2);
    let f2 = mv(Move333Type::F, 2);
    let b2 = mv(Move333Type::B, 2);
    let u1 = mv(Move333Type::U, 1);
    let u2 = mv(Move333Type::U, 2);
    let u3 = mv(Move333Type::U, 3);
    let d1 = mv(Move333Type::D, 1);
    let d2 = mv(Move333Type::D, 2);
    let d3 = mv(Move333Type::D, 3);
    let algorithms: [&[Move333]; 11] = [
        &[r2, u3, d1, b2, u1, d3],
        &[u3, d1, b2, u1, d3, r2],
        &[r2, u1, d3, f2, u3, d1],
        &[u1, d3, f2, u3, d1, r2],
        &[l2, u1, d3, b2, u3, d1],
        &[u1, d3, b2, u3, d1, l2],
        &[l2, u3, d1, f2, u1, d3],
        &[u3, d1, f2, u1, d3, l2],
        &[l2, u2, d2, r2, u2, d2],
        &[f2, u2, d2, b2, u2, d2],
        &[r2, f2, u2, d2, b2, u2, d2, r2],
    ];
    let mut distinct = std::collections::HashSet::new();
    distinct.insert(CubieCube::solved());
    for moves in algorithms {
        assert!(set.contains(&after(moves)));
        distinct.insert(after(moves));
    }
    assert_eq!(distinct.len(), 12);
    assert_eq!(set.len(), 12);
    assert!(!set.contains(&after(&[r2])));
}

#[test]
fn follow_applies_moves_by_index() {
    assert_eq!(follow(CubieCube::solved(), &[]), CubieCube::solved());
    assert_eq!(
        follow(CubieCube::solved(), &[0, 14, 10]),
        after(&[mv(Move333Type::R, 1), mv(Move333Type::U, 3), mv(Move333Type::F, 2)])
    );
}

#[test]
fn floppy_reduction_generates_192_cubes() {
    let set = GeneratorSet::from_generator_trait::<Fr>(CubieCube::solved());
    assert_eq!(set.len(), 192);
    assert!(set.contains(&CubieCube::solved()));
    assert!(set.contains(&after(&[mv(Move333Type::R, 2), mv(Move333Type::F, 2)])));
    assert!(!set.contains(&after(&[mv(Move333Type::U, 2)])));
    for i in 0..set.len() {
        for g in 0..4 {
            assert!(set.contains(&set.cube(i).make_move(Fr::move_at(g))));
        }
    }
}

#[test]
fn generated_cubes_come_with_ways_to_them() {
    let start = after(&[mv(Move333Type::U, 1)]);
    let (set, solutions) = GeneratorSet::from_generator_trait_with_solutions::<Fr>(start);
    assert_eq!(set.len(), 192);
    assert_eq!(solutions.len(), 192);
    assert!(solutions[0].is_empty());
    let fr = Fr::move_list();
    for i in 0..set.len() {
        let mut cube = start;
        for &m in &solutions[i] {
            assert!(fr.contains(&m));
            cube = cube.make_move(m);
        }
        assert_eq!(cube, set.cube(i));
        if i > 0 {
            assert!(solutions[i - 1].len() <= solutions[i].len());
        }
    }
    assert_eq!(solutions[1], vec![mv(Move333Type::R, 2)]);
    assert_eq!(solutions[4], vec![mv(Move333Type::B, 2)]);
    assert_eq!(solutions[5].len(), 2);
}

#[test]
fn products_of_sets() {
    let mut pair = GeneratorSet::solved_set();
    pair.insert(after(&[mv(Move333Type::U, 2)]));
    let product = pair.product::<Fr>();
    assert_eq!(product.len(), 384);
    assert!(product.contains(&after(&[mv(Move333Type::U, 2), mv(Move333Type::R, 2)])));
    assert!(!product.contains(&after(&[mv(Move333Type::D, 2)])));
    assert_eq!(GeneratorSet::new().product::<Htr>().len(), 0);
}

#[test]
fn search_finds_the_first_way_of_the_depth() {
    let solved = GeneratorSet::solved_set();
    let cube = after(&[mv(Move333Type::R, 1), mv(Move333Type::U, 1)]);
    assert_eq!(search::<Htm>(cube, &solved, 0), None);
    assert_eq!(search::<Htm>(cube, &solved, 1), None);
    // the moves come last move first
    assert_eq!(
        search::<Htm>(cube, &solved, 2),
        Some(vec![mv(Move333Type::R, 3), mv(Move333Type::U, 3)])
    );
    assert_eq!(search::<Htm>(CubieCube::solved(), &solved, 0), Some(vec![]));
    // of the ways of two moves from the solved cube to itself, R R' comes first
    assert_eq!(
        search::<Htm>(CubieCube::solved(), &solved, 2),
        Some(vec![mv(Move333Type::R, 3), mv(Move333Type::R, 1)])
    );
    assert_eq!(search::<Htr>(cube, &solved, 2), None);
}

#[test]
fn solve_finds_a_shortest_way() {
    let solved = GeneratorSet::solved_set();
    let cube = after(&[mv(Move333Type::B, 2), mv(Move333Type::L, 2), mv(Move333Type::F, 2)]);
    assert_eq!(
        solve::<Htr>(cube, &solved),
        Some(vec![mv(Move333Type::F, 2), mv(Move333Type::L, 2), mv(Move333Type::B, 2)])
    );
    assert_eq!(solve::<Htm>(CubieCube::solved(), &solved), Some(vec![]));
    let fr = GeneratorSet::from_generator_trait::<Fr>(CubieCube::solved());
    let near = after(&[mv(Move333Type::R, 2), mv(Move333Type::U, 1)]);
    assert_eq!(solve::<Htm>(near, &fr), Some(vec![mv(Move333Type::U, 3)]));
}

#[test]
fn sequences_reversed_and_extended() {
    let a = mv(Move333Type::R, 1);
    let b = mv(Move333Type::U, 2);
    let c = mv(Move333Type::F, 3);
    assert_eq!(reversed(&vec![a, b, c]), vec![c, b, a]);
    assert_eq!(reversed(&vec![]), vec![]);
    assert_eq!(extended(&vec![a, b], c), vec![a, b, c]);
    assert_eq!(extended(&vec![], c), vec![c]);
}
