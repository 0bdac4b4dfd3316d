use cube_lib::cube333::coordcube::{COCoord, CPCoord, EOCoord, EPCoord};
use cube_lib::cube333::moves::{Fr, Generated, Htm, Htr, Move333, Move333Type, MoveGenerator};
use cube_lib::cube333::CubieCube;
use cube_lib::generic::{gen_move_table, repeated, Coordinate, GroupPuzzle, MoveTableError};

type HtmCube = Generated<Htm>;

#[test]
fn table_fails_where_the_generators_do_not_reach_every_coordinate() {
    // half turns keep every orientation, so they reach one corner orientation only
    assert_eq!(
        gen_move_table::<Generated<Htr>, COCoord>().err(),
        Some(MoveTableError::Incomplete)
    );
    assert_eq!(gen_move_table::<Generated<Fr>, EOCoord>().err(), Some(MoveTableError::Incomplete));
    // and the half turns of four faces reach 24 corner permutations, not all 8!
    assert_eq!(gen_move_table::<Generated<Fr>, CPCoord>().err(), Some(MoveTableError::Incomplete));
}

#[test]
fn repeated_fills_a_vector() {
    assert_eq!(repeated(7u8, 3), vec![7, 7, 7]);
    assert_eq!(repeated(true, 0), Vec::<bool>::new());
}

fn scramble(seed: &mut u32, len: usize) -> Vec<usize> {
    let mut moves = Vec::new();
    for _ in 0..len {
        *seed = seed.wrapping_mul(1664525).wrapping_add(1013904223);
        moves.push(((*seed >> 16) % 18) as usize);
    }
    moves
}

#[test]
fn corner_orientation_table_agrees_with_the_cube() {
    let table = gen_move_table::<HtmCube, COCoord>().unwrap();
    assert_eq!(table.rows.len(), 18);
    for row in table.rows.iter() {
        assert_eq!(row.len(), 2187);
    }
    for c in 0..2187u16 {
        let coord = COCoord::new(c).unwrap();
        let puzzle: HtmCube = coord.to_puzzle();
        for g in 0..18 {
            let moved = puzzle.cube.make_move(Htm::move_at(g));
            assert_eq!(
                table.rows[g][c as usize],
                <COCoord as Coordinate<HtmCube>>::from_puzzle(&Generated::new(moved))
            );
        }
    }
    // a quarter turn of U keeps every corner orientation but moves the digits
    assert_eq!(table.rows[2][0].get(), 0);
    assert_eq!(table.rows[0][0].get(), CubieCube::solved()
        .make_move(Move333 { ty: Move333Type::R, count: 1 })
        .to_coord()
        .unwrap()
        .co
        .get());
    let mut seed = 7;
    let mut puzzle = HtmCube::solved();
    let mut coord = COCoord::from_puzzle(&puzzle);
    assert!(Coordinate::<HtmCube>::solved(&coord));
    for g in scramble(&mut seed, 300) {
        puzzle = puzzle.apply_move(g);
        coord = table.apply_move::<HtmCube>(coord, g);
        assert_eq!(coord, COCoord::from_puzzle(&puzzle));
        assert_eq!(coord, puzzle.cube.to_coord().unwrap().co);
    }
}

#[test]
fn edge_orientation_table_agrees_with_the_cube() {
    let table = gen_move_table::<HtmCube, EOCoord>().unwrap();
    let mut seed = 99;
    let mut puzzle = HtmCube::solved();
    let mut coord = EOCoord::from_puzzle(&puzzle);
    for g in scramble(&mut seed, 300) {
        puzzle = puzzle.apply_move(g);
        coord = table.apply_move::<HtmCube>(coord, g);
        assert_eq!(coord, EOCoord::from_puzzle(&puzzle));
        assert_eq!(coord, puzzle.cube.to_coord().unwrap().eo);
    }
    // the quarter turns of R, L, U and D keep the edge orientation
    for g in 0..4 {
        assert_eq!(table.rows[g][0].get(), 0);
    }
    // F flips the edges in slots 0, 4, 8 and 9, and B those in slots 2, 6, 10 and 11
    assert_eq!(table.rows[4][0].get(), 0b1000_1000_110);
    assert_eq!(table.rows[5][0].get(), 0b0010_0010_001);
}

#[test]
fn corner_permutation_table_agrees_with_the_cube() {
    let table = gen_move_table::<HtmCube, CPCoord>().unwrap();
    assert_eq!(table.rows[0].len(), 40320);
    let mut seed = 2024;
    let mut puzzle = HtmCube::solved();
    let mut coord = CPCoord::from_puzzle(&puzzle);
    for g in scramble(&mut seed, 300) {
        puzzle = puzzle.apply_move(g);
        coord = table.apply_move::<HtmCube>(coord, g);
        assert_eq!(coord, CPCoord::from_puzzle(&puzzle));
        assert_eq!(coord, puzzle.cube.to_coord().unwrap().cp);
    }
}

#[test]
fn coordinates_and_their_elements() {
    assert_eq!(<COCoord as Coordinate<HtmCube>>::size(), 2187);
    assert_eq!(<CPCoord as Coordinate<HtmCube>>::size(), 40320);
    assert_eq!(<EOCoord as Coordinate<HtmCube>>::size(), 2048);
    assert_eq!(<EPCoord as Coordinate<HtmCube>>::size(), 479001600);
    let ep = EPCoord::new(123456).unwrap();
    let puzzle: HtmCube = ep.to_puzzle();
    assert_eq!(puzzle.cube.co, CubieCube::solved().co);
    assert_eq!(puzzle.cube.cp, CubieCube::solved().cp);
    assert_eq!(puzzle.cube.eo, CubieCube::solved().eo);
    assert_eq!(EPCoord::from_puzzle(&puzzle), ep);
    assert_eq!(Coordinate::<HtmCube>::to_index(ep), 123456);
    assert!(!Coordinate::<HtmCube>::solved(&ep));
    assert!(Coordinate::<HtmCube>::solved(&EPCoord::from_puzzle(&HtmCube::solved())));
    let cp = CPCoord::new(1).unwrap();
    let odd: HtmCube = cp.to_puzzle();
    assert_eq!(CPCoord::from_puzzle(&odd), cp);
    assert!(odd.cube.illegal());
}

#[test]
fn cube_generators_are_the_moves_of_the_set() {
    assert_eq!(HtmCube::generators(), 18);
    assert_eq!(Generated::<Fr>::generators(), 4);
    assert_eq!(Generated::<Htr>::generators(), 6);
    assert_eq!(HtmCube::solved().cube, CubieCube::solved());
    let list = Htm::move_list();
    assert_eq!(list.len(), Htm::size());
    for (i, &mv) in list.iter().enumerate() {
        assert_eq!(mv, Htm::move_at(i));
        assert_eq!(mv.to_index(), i);
        assert_eq!(HtmCube::solved().apply_move(i).cube, CubieCube::solved().make_move(mv));
    }
    assert_eq!(list[0], Move333 { ty: Move333Type::R, count: 1 });
    assert_eq!(list[5], Move333 { ty: Move333Type::B, count: 1 });
    assert_eq!(list[8], Move333 { ty: Move333Type::U, count: 2 });
    assert_eq!(list[17], Move333 { ty: Move333Type::B, count: 3 });
    assert_eq!(
        Generated::<Fr>::solved().apply_move(2).cube,
        CubieCube::solved().make_move(Move333 { ty: Move333Type::F, count: 2 })
    );
}

#[test]
fn reduced_move_sets() {
    let half = |ty| Move333 { ty, count: 2 };
    assert_eq!(Fr::size(), 4);
    assert_eq!(
        Fr::move_list(),
        vec![half(Move333Type::R), half(Move333Type::L), half(Move333Type::F), half(Move333Type::B)]
    );
    assert_eq!(Htr::size(), 6);
    assert_eq!(
        Htr::move_list(),
        vec![
            half(Move333Type::U),
            half(Move333Type::D),
            half(Move333Type::R),
            half(Move333Type::L),
            half(Move333Type::F),
            half(Move333Type::B)
        ]
    );
    for i in 0..4 {
        assert_eq!(Fr::move_at(i), Fr::move_list()[i]);
    }
    for i in 0..6 {
        assert_eq!(Htr::move_at(i), Htr::move_list()[i]);
    }
}
