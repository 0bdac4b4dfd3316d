use cube_lib::cube333::moves::{Move333, Move333Type, MOVE_TYPES};
use cube_lib::cube333::CubieCube;
use cube_lib::moves::{Cancellation, Move, MoveSequence};

fn mv(ty: Move333Type, count: u8) -> Move333 {
    Move333 { ty, count }
}

#[test]
fn inverse_of_a_move() {
    assert_eq!(mv(Move333Type::R, 1).inverse(), mv(Move333Type::R, 3));
    assert_eq!(mv(Move333Type::U, 2).inverse(), mv(Move333Type::U, 2));
    assert_eq!(mv(Move333Type::B, 3).inverse(), mv(Move333Type::B, 1));
    assert_eq!(mv(Move333Type::L, 0).inverse(), mv(Move333Type::L, 0));
    assert_eq!(mv(Move333Type::L, 4).inverse(), mv(Move333Type::L, 0));
    for ty in MOVE_TYPES {
        for count in 0..=255u8 {
            let m = mv(ty, count);
            let cube = CubieCube::solved().make_move(mv(Move333Type::F, 1));
            assert_eq!(cube.make_move(m).make_move(m.inverse()), cube);
        }
    }
}

#[test]
fn moves_of_one_axis_commute() {
    let r = mv(Move333Type::R, 1);
    let l = mv(Move333Type::L, 3);
    let u = mv(Move333Type::U, 2);
    let d = mv(Move333Type::D, 1);
    let f = mv(Move333Type::F, 1);
    let b = mv(Move333Type::B, 2);
    assert!(r.commutes_with(&l));
    assert!(l.commutes_with(&r));
    assert!(r.commutes_with(&r));
    assert!(u.commutes_with(&d));
    assert!(f.commutes_with(&b));
    assert!(!r.commutes_with(&u));
    assert!(!u.commutes_with(&f));
    assert!(!b.commutes_with(&l));
    for a in MOVE_TYPES {
        for c in MOVE_TYPES {
            let x = mv(a, 1);
            let y = mv(c, 1);
            let cube = CubieCube::solved();
            let same = cube.make_move(x).make_move(y) == cube.make_move(y).make_move(x);
            assert_eq!(x.commutes_with(&y), same);
        }
    }
}

#[test]
fn cancelling_two_moves() {
    let r1 = mv(Move333Type::R, 1);
    let r2 = mv(Move333Type::R, 2);
    let r3 = mv(Move333Type::R, 3);
    let u3 = mv(Move333Type::U, 3);
    assert!(r1.cancel(u3) == Cancellation::TwoMove(r1, u3));
    assert!(r1.cancel(r1) == Cancellation::OneMove(r2));
    assert!(r1.cancel(r3) == Cancellation::NoMove);
    assert!(r2.cancel(r2) == Cancellation::NoMove);
    assert!(r2.cancel(r3) == Cancellation::OneMove(r1));
    assert!(r3.cancel(r3) == Cancellation::OneMove(r2));
}

#[test]
fn inverse_of_a_sequence() {
    let seq = MoveSequence(vec![
        mv(Move333Type::R, 1),
        mv(Move333Type::U, 2),
        mv(Move333Type::F, 3),
    ]);
    let inv = seq.inverse();
    assert_eq!(
        inv,
        MoveSequence(vec![mv(Move333Type::F, 1), mv(Move333Type::U, 2), mv(Move333Type::R, 3)])
    );
    assert_eq!(MoveSequence::<Move333>(vec![]).inverse(), MoveSequence(vec![]));
    let mut cube = CubieCube::solved();
    for m in [mv(Move333Type::R, 1), mv(Move333Type::U, 2), mv(Move333Type::F, 3)] {
        cube = cube.make_move(m);
    }
    for m in inv.0 {
        cube = cube.make_move(m);
    }
    assert_eq!(cube, CubieCube::solved());
}
