use cube_lib::cube333::coordcube::{COCoord, CPCoord, EOCoord};
use cube_lib::cube333::moves::{Generated, Htm, MoveGenerator};
use cube_lib::cube333::CubieCube;
use cube_lib::generic::{gen_move_table, Coordinate, GroupPuzzle};
use proptest::strategy::{Strategy, ValueTree};
use proptest::test_runner::TestRunner;

#[test]
fn moves_work() {
    let co_table = gen_move_table::<Generated<Htm>, COCoord>().unwrap();
    let eo_table = gen_move_table::<Generated<Htm>, EOCoord>().unwrap();
    let cp_table = gen_move_table::<Generated<Htm>, CPCoord>().unwrap();
    let move_list = Htm::move_list();
    // proptest
    let mut runner = TestRunner::default();
    for _ in 0..256 {
        let mut mvs = vec![];
        for _ in 0..(0..40usize).new_tree(&mut runner).unwrap().current() {
            let val = (0..18usize).new_tree(&mut runner).unwrap();
            let mv = move_list[val.current()];
            mvs.push(mv);
        }
        println!("{:?}", mvs);
        // Apply the sequence of moves to a cubie cube and to the coordinates made from
        // that cubie cube, then check that the coordinates are those of the cube, and
        // that the cube made from its coordinates is the cube.
        let mut cube: Generated<Htm> = Generated::solved();
        let mut co = COCoord::from_puzzle(&cube);
        let mut eo = EOCoord::from_puzzle(&cube);
        let mut cp = CPCoord::from_puzzle(&cube);
        for mv in mvs {
            let g = mv.to_index();
            cube = Generated::new(cube.cube.make_move(mv));
            co = co_table.apply_move::<Generated<Htm>>(co, g);
            eo = eo_table.apply_move::<Generated<Htm>>(eo, g);
            cp = cp_table.apply_move::<Generated<Htm>>(cp, g);
        }
        let coord = cube.cube.to_coord().unwrap();
        assert_eq!(coord.co, co);
        assert_eq!(coord.eo, eo);
        assert_eq!(coord.cp, cp);
        assert_eq!(coord.to_cubie(), cube.cube);
    }
    assert_eq!(CubieCube::solved().to_coord().unwrap().to_cubie(), CubieCube::solved());
}
