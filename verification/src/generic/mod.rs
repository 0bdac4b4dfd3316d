//! Move tables for any puzzle whose states form a group, built by searching what
//! can be reached from the solved state.
//!
//! A coordinate maps the states of the puzzle onto the numbers below its order, so
//! that the coordinate of a state after a move follows from the coordinate before
//! it. A move table holds, for each generator and each coordinate, the coordinate
//! after the move: applying a move to a coordinate is then one lookup.

use vstd::prelude::*;

verus! {

/// Puzzles that implement this trait are groups: they have a solved state and a
/// fixed list of generators, each of which takes a state to a state.
pub trait GroupPuzzle: Sized {
    /// The states of the puzzle as mathematical values.
    type State;

    /// The state that a value of the puzzle stands for.
    spec fn state(&self) -> Self::State;

    /// The solved state, the identity of the group.
    spec fn solved_state() -> Self::State;

    /// The number of generators. A generator is named by its index below this
    /// number.
    spec fn generator_count() -> nat;

    /// The state after the generator with index `g` is applied to `s`.
    spec fn apply_generator(s: Self::State, g: int) -> Self::State;

    /// The number of generators.
    fn generators() -> (n: usize)
        ensures
            n == Self::generator_count(),
    ;

    /// The default solved state.
    fn solved() -> (p: Self)
        ensures
            p.state() == Self::solved_state(),
    ;

    /// Apply the generator with index `g` to the puzzle.
    fn apply_move(&self, g: usize) -> (r: Self)
        requires
            g < Self::generator_count(),
        ensures
            r.state() == Self::apply_generator(self.state(), g as int),
    ;
}

/// A coordinate of a puzzle group P maps the states of the puzzle onto the
/// numbers below its order, compatibly with the generators: the coordinate of a
/// state after a move depends on the coordinate of the state alone.
///
/// Coordinates are useful for high performance implementations of a puzzle since we can make a
/// lookup table to implement the group operation, and lookup tables are fast.
pub trait Coordinate<P: GroupPuzzle>: Sized + Copy {
    /// The order of the coordinate: the number of values it takes.
    spec fn order() -> nat;

    /// The coordinate as a number, which indexes the lookup tables.
    spec fn index(self) -> nat;

    /// The coordinate of a state.
    spec fn of_state(s: P::State) -> nat;

    /// One state that has the coordinate `i`.
    spec fn element(i: nat) -> P::State;

    /// The states on which the coordinate is defined to be compatible with the
    /// generators.
    spec fn respects(s: P::State) -> bool;

    /// The order of the coordinate.
    fn size() -> (n: usize)
        ensures
            n == Self::order(),
    ;

    /// The coordinate as a number. It is below the order.
    fn to_index(self) -> (i: usize)
        ensures
            i == self.index(),
            i < Self::order(),
    ;

    /// Function that converts a puzzle to a coordinate value.
    fn from_puzzle(puzzle: &P) -> (c: Self)
        ensures
            c.index() == Self::of_state(puzzle.state()),
    ;

    /// Generate a puzzle which has the property defined by the coordinate: the
    /// element of the coordinate. What the coordinate does not speak of is as on the
    /// solved puzzle.
    fn to_puzzle(self) -> (p: P)
        ensures
            p.state() == Self::element(self.index()),
    ;

    /// Returns true if the coordinate is the same as the coordinate on a solved puzzle.
    fn solved(&self) -> (r: bool)
        ensures
            r == (self.index() == Self::of_state(P::solved_state())),
    ;

    /// The coordinate is onto: the element of a coordinate has that coordinate,
    /// and it is a state that the coordinate respects. So is the solved state.
    proof fn lemma_element(i: nat)
        requires
            i < Self::order(),
        ensures
            Self::of_state(Self::element(i)) == i,
            Self::respects(Self::element(i)),
            Self::respects(P::solved_state()),
    ;

    /// The coordinate is compatible with the generators: on a state that it
    /// respects, the coordinate after a move is that of the moved element of its
    /// coordinate. The state after the move is again one that it respects.
    proof fn lemma_compatible(s: P::State, g: int)
        requires
            Self::respects(s),
            0 <= g < P::generator_count(),
        ensures
            Self::of_state(s) < Self::order(),
            Self::respects(P::apply_generator(s, g)),
            Self::of_state(P::apply_generator(s, g)) == Self::of_state(
                P::apply_generator(Self::element(Self::of_state(s)), g),
            ),
    ;
}

/// The coordinate that the generator `g` leads to from the coordinate `c`: the
/// coordinate of the moved element of `c`.
pub open spec fn step<P: GroupPuzzle, C: Coordinate<P>>(c: nat, g: int) -> nat {
    C::of_state(P::apply_generator(C::element(c), g))
}

/// The coordinate of the solved state.
pub open spec fn start<P: GroupPuzzle, C: Coordinate<P>>() -> nat {
    C::of_state(P::solved_state())
}

/// Whether `path` is a sequence of generators of the puzzle.
pub open spec fn is_path<P: GroupPuzzle>(path: Seq<int>) -> bool {
    forall|i: int| 0 <= i < path.len() ==> 0 <= #[trigger] path[i] < P::generator_count()
}

/// The coordinate that the generators of `path`, one after the other, lead to from
/// the coordinate `c`.
pub open spec fn follow<P: GroupPuzzle, C: Coordinate<P>>(c: nat, path: Seq<int>) -> nat
    decreases path.len(),
{
    if path.len() == 0 {
        c
    } else {
        step::<P, C>(follow::<P, C>(c, path.drop_last()), path.last())
    }
}

/// The state that the generators of `path`, one after the other, lead to from the
/// state `s`.
pub open spec fn apply_path<P: GroupPuzzle>(s: P::State, path: Seq<int>) -> P::State
    decreases path.len(),
{
    if path.len() == 0 {
        s
    } else {
        P::apply_generator(apply_path::<P>(s, path.drop_last()), path.last())
    }
}

/// Whether some sequence of generators leads from the coordinate of the solved
/// state to the coordinate `c`.
pub open spec fn reachable<P: GroupPuzzle, C: Coordinate<P>>(c: nat) -> bool {
    exists|path: Seq<int>| is_path::<P>(path) && follow::<P, C>(start::<P, C>(), path) == c
}

/// Why a move table could not be built.
#[derive(Debug, Copy, Clone, PartialEq, Eq, Hash, Structural)]
pub enum MoveTableError {
    /// The generators do not lead from the solved state to every coordinate below
    /// the order, so a cell of the table stayed empty.
    Incomplete,
}

/// A table containing, for each generator and each coordinate, the coordinate after
/// the generator is applied.
pub struct MoveTable<C> {
    /// One row for each generator, with one cell for each coordinate
    pub rows: Vec<Vec<C>>,
}

impl<C: Copy> MoveTable<C> {
    /// Whether the table has a row for each generator of `P` and a cell for each
    /// coordinate, and every cell holds the coordinate that its generator leads to
    /// from its coordinate.
    pub open spec fn is_table_of<P: GroupPuzzle>(&self) -> bool where C: Coordinate<P> {
        &&& self.rows.len() == P::generator_count()
        &&& forall|g: int|
            0 <= g < self.rows.len() ==> (#[trigger] self.rows[g]).len() == C::order()
        &&& forall|g: int, c: int|
            0 <= g < self.rows.len() && 0 <= c < C::order() ==> (#[trigger] self.rows[g][c]).index()
                == step::<P, C>(c as nat, g)
    }

    /// Applies a move to some coordinate using the move table.
    pub fn apply_move<P: GroupPuzzle>(&self, coord: C, g: usize) -> (r: C) where C: Coordinate<P>
        requires
            self.is_table_of::<P>(),
            g < P::generator_count(),
        ensures
            r == self.rows[g as int][coord.index() as int],
            r.index() == step::<P, C>(coord.index(), g as int),
    {
        let i = coord.to_index();
        self.rows[g][i]
    }
}

/// The number of entries that are `false`.
pub open spec fn count_unvisited(visited: Seq<bool>) -> nat
    decreases visited.len(),
{
    if visited.len() == 0 {
        0
    } else {
        count_unvisited(visited.drop_last()) + if visited.last() {
            0nat
        } else {
            1nat
        }
    }
}

/// Visiting a coordinate for the first time lowers the count by one.
proof fn lemma_count_unvisited_update(visited: Seq<bool>, i: int)
    requires
        0 <= i < visited.len(),
        !visited[i],
    ensures
        count_unvisited(visited.update(i, true)) + 1 == count_unvisited(visited),
    decreases visited.len(),
{
    let u = visited.update(i, true);
    if i == visited.len() - 1 {
        assert(u.drop_last() =~= visited.drop_last());
    } else {
        lemma_count_unvisited_update(visited.drop_last(), i);
        assert(u.drop_last() =~= visited.drop_last().update(i, true));
    }
}

/// Whether the coordinate `c` waits on the stack.
pub open spec fn on_stack<P: GroupPuzzle, C: Coordinate<P>>(stack: Seq<C>, c: nat) -> bool {
    exists|k: int| 0 <= k < stack.len() && (#[trigger] stack[k]).index() == c
}

/// Whether the cell of generator `g` and coordinate `c` is filled, with the
/// coordinate that the generator leads to, and that coordinate was visited.
pub open spec fn filled<P: GroupPuzzle, C: Coordinate<P>>(
    cells: Seq<Vec<Option<C>>>,
    visited: Seq<bool>,
    g: int,
    c: nat,
) -> bool {
    &&& cells[g][c as int] is Some
    &&& cells[g][c as int]->0.index() == step::<P, C>(c, g)
    &&& step::<P, C>(c, g) < visited.len()
    &&& visited[step::<P, C>(c, g) as int]
}

/// What holds of the search between two steps: the table has its shape, every
/// visited coordinate is reachable, and every visited coordinate that neither waits
/// on the stack nor is `current` has its cells filled.
pub open spec fn searching<P: GroupPuzzle, C: Coordinate<P>>(
    cells: Seq<Vec<Option<C>>>,
    visited: Seq<bool>,
    stack: Seq<C>,
    current: Option<nat>,
) -> bool {
    &&& cells.len() == P::generator_count()
    &&& visited.len() == C::order()
    &&& forall|g: int| 0 <= g < cells.len() ==> (#[trigger] cells[g]).len() == C::order()
    &&& start::<P, C>() < visited.len()
    &&& visited[start::<P, C>() as int]
    &&& forall|c: nat| c < visited.len() && visited[c as int] ==> #[trigger] reachable::<P, C>(c)
    &&& forall|k: int|
        0 <= k < stack.len() ==> (#[trigger] stack[k]).index() < visited.len()
            && visited[stack[k].index() as int]
    &&& forall|c: nat, g: int|
        c < visited.len() && visited[c as int] && !on_stack::<P, C>(stack, c) && current != Some(c)
            && 0 <= g < cells.len() ==> #[trigger] filled::<P, C>(cells, visited, g, c)
}

/// A vector of `n` copies of `value`.
pub fn repeated<T: Copy>(value: T, n: usize) -> (v: Vec<T>)
    ensures
        v.len() == n,
        forall|i: int| 0 <= i < n ==> v[i] == value,
{
    let mut v: Vec<T> = Vec::new();
    while v.len() < n
        invariant
            v.len() <= n,
            forall|i: int| 0 <= i < v.len() ==> v[i] == value,
        decreases n - v.len(),
    {
        v.push(value);
    }
    v
}

/// Generates a table containing move+state mappings to states after applying a move to a
/// coordinate. The search starts at the coordinate of the solved state and goes on
/// to every coordinate that the generators lead to. It fails if that leaves a
/// coordinate below the order unvisited, and so a cell of the table empty.
pub fn gen_move_table<P: GroupPuzzle, C: Coordinate<P>>() -> (r: Result<
    MoveTable<C>,
    MoveTableError,
>)
    ensures
        match r {
            Ok(table) => table.is_table_of::<P>() && forall|c: nat|
                c < C::order() ==> reachable::<P, C>(c),
            Err(_) => exists|c: nat| c < C::order() && !reachable::<P, C>(c),
        },
{
    let order = C::size();
    let gens = P::generators();
    let first = C::from_puzzle(&P::solved());
    let first_index = first.to_index();
    let mut visited: Vec<bool> = repeated(false, order);
    let mut cells: Vec<Vec<Option<C>>> = Vec::new();
    while cells.len() < gens
        invariant
            cells.len() <= gens,
            forall|g: int| 0 <= g < cells.len() ==> (#[trigger] cells[g]).len() == order,
            forall|g: int, c: int|
                0 <= g < cells.len() && 0 <= c < order ==> (#[trigger] cells[g][c]) is None,
        decreases gens - cells.len(),
    {
        let row: Vec<Option<C>> = repeated(None, order);
        cells.push(row);
    }
    let mut stack: Vec<C> = Vec::new();
    visited[first_index] = true;
    stack.push(first);
    proof {
        lemma_reachable_start::<P, C>();
        assert(on_stack::<P, C>(stack@, first.index())) by {
            assert(stack@[0].index() == first.index());
        }
    }
    while stack.len() > 0
        invariant
            order == C::order(),
            gens == P::generator_count(),
            searching::<P, C>(cells@, visited@, stack@, None),
        decreases count_unvisited(visited@) + stack.len(),
    {
        let ghost waiting = stack@;
        let current = stack.pop().unwrap();
        let ci = current.to_index();
        let puzzle = current.to_puzzle();
        let ghost popped = stack@;
        let ghost budget = count_unvisited(visited@) + stack.len();
        proof {
            assert(visited[waiting[waiting.len() - 1].index() as int]);
            assert forall|k: int| 0 <= k < stack.len() implies (#[trigger] stack@[k]).index()
                < visited.len() && visited[stack@[k].index() as int] by {
                assert(stack@[k] == waiting[k]);
            }
            assert forall|c: nat, h: int|
                c < visited.len() && visited[c as int] && !on_stack::<P, C>(stack@, c) && Some(
                    ci as nat,
                ) != Some(c) && 0 <= h < cells.len() implies #[trigger] filled::<P, C>(
                cells@,
                visited@,
                h,
                c,
            ) by {
                if on_stack::<P, C>(waiting, c) {
                    let k = choose|k: int|
                        0 <= k < waiting.len() && (#[trigger] waiting[k]).index() == c;
                    assert(k < stack.len());
                    assert(stack@[k].index() == c);
                }
            }
        }
        let mut g: usize = 0;
        while g < gens
            invariant
                g <= gens,
                order == C::order(),
                gens == P::generator_count(),
                ci == current.index(),
                ci < order,
                visited[ci as int],
                puzzle.state() == C::element(current.index()),
                stack.len() >= popped.len(),
                searching::<P, C>(cells@, visited@, stack@, Some(ci as nat)),
                forall|h: int| 0 <= h < g ==> #[trigger] filled::<P, C>(cells@, visited@, h, ci as nat),
                count_unvisited(visited@) + stack.len() <= budget,
            decreases gens - g,
        {
            let moved = puzzle.apply_move(g);
            let next = C::from_puzzle(&moved);
            let ni = next.to_index();
            let ghost cells_before = cells@;
            let ghost visited_before = visited@;
            let ghost stack_before = stack@;
            cells[g][ci] = Some(next);
            assert(cells@.len() == cells_before.len());
            assert(cells@[g as int]@ == cells_before[g as int]@.update(ci as int, Some(next)));
            assert(forall|h: int| 0 <= h < cells.len() && h != g ==> cells@[h] == cells_before[h]);
            if !visited[ni] {
                visited[ni] = true;
                stack.push(next);
                proof {
                    lemma_count_unvisited_update(visited_before, ni as int);
                }
            }
            proof {
                lemma_reachable_step::<P, C>(ci as nat, g as int);
                assert(ni == step::<P, C>(ci as nat, g as int));
                assert forall|c: nat, h: int|
                    c < order && 0 <= h < gens && filled::<P, C>(
                        cells_before,
                        visited_before,
                        h,
                        c,
                    ) implies filled::<P, C>(cells@, visited@, h, c) by {
                    if h == g {
                        if c != ci {
                            assert(cells@[h][c as int] == cells_before[h][c as int]);
                        }
                    } else {
                        assert(cells@[h] == cells_before[h]);
                    }
                    assert(visited_before[step::<P, C>(c, h) as int]);
                }
                assert forall|k: int| 0 <= k < stack.len() implies (#[trigger] stack@[k]).index()
                    < visited.len() && visited[stack@[k].index() as int] by {
                    if k < stack_before.len() {
                        assert(stack@[k] == stack_before[k]);
                        assert(visited_before[stack_before[k].index() as int]);
                    }
                }
                assert forall|c: nat| c < visited.len() && visited[c as int] implies #[trigger] reachable::<
                    P,
                    C,
                >(c) by {
                    if c != ni {
                        assert(visited_before[c as int]);
                    }
                }
                assert forall|c: nat, h: int|
                    c < visited.len() && visited[c as int] && !on_stack::<P, C>(stack@, c) && Some(
                        ci as nat,
                    ) != Some(c) && 0 <= h < cells.len() implies #[trigger] filled::<P, C>(
                    cells@,
                    visited@,
                    h,
                    c,
                ) by {
                    if !visited_before[c as int] {
                        assert(c == ni);
                        assert(stack@[stack.len() - 1].index() == ni);
                        assert(on_stack::<P, C>(stack@, c));
                    }
                    if on_stack::<P, C>(stack_before, c) {
                        let k = choose|k: int|
                            0 <= k < stack_before.len() && (#[trigger] stack_before[k]).index()
                                == c;
                        assert(stack@[k].index() == c);
                    }
                    assert(filled::<P, C>(cells_before, visited_before, h, c));
                }
                assert forall|h: int| 0 <= h < g + 1 implies #[trigger] filled::<P, C>(
                    cells@,
                    visited@,
                    h,
                    ci as nat,
                ) by {
                    if h < g {
                        assert(filled::<P, C>(cells_before, visited_before, h, ci as nat));
                    } else {
                        assert(cells@[g as int][ci as int] == Some(next));
                    }
                }
                assert(forall|h: int|
                    0 <= h < cells.len() ==> (#[trigger] cells@[h]).len() == C::order()) by {
                    assert forall|h: int| 0 <= h < cells.len() implies (#[trigger] cells@[h]).len()
                        == C::order() by {
                        if h != g {
                            assert(cells@[h] == cells_before[h]);
                        }
                    }
                }
            }
            g += 1;
        }
    }
    proof {
        assert forall|c: nat, g: int|
            c < visited.len() && visited[c as int] && 0 <= g < gens implies {
            &&& (#[trigger] step::<P, C>(c, g)) < visited.len()
            &&& visited[step::<P, C>(c, g) as int]
        } by {
            assert(!on_stack::<P, C>(stack@, c));
            assert(filled::<P, C>(cells@, visited@, g, c));
        }
        assert forall|c: nat| c < order && reachable::<P, C>(c) implies visited[c as int] by {
            let path = choose|path: Seq<int>|
                is_path::<P>(path) && follow::<P, C>(start::<P, C>(), path) == c;
            lemma_closed_holds_reachable::<P, C>(visited@, path);
        }
    }
    let mut c: usize = 0;
    while c < order
        invariant
            c <= order,
            order == visited.len(),
            order == C::order(),
            forall|k: int| 0 <= k < c ==> visited[k],
            forall|k: nat| k < order && reachable::<P, C>(k) ==> visited[k as int],
        decreases order - c,
    {
        if !visited[c] {
            assert(!reachable::<P, C>(c as nat));
            return Err(MoveTableError::Incomplete);
        }
        c += 1;
    }
    let mut rows: Vec<Vec<C>> = Vec::new();
    while rows.len() < gens
        invariant
            rows.len() <= gens,
            order == C::order(),
            gens == P::generator_count(),
            searching::<P, C>(cells@, visited@, stack@, None),
            stack.len() == 0,
            forall|k: int| 0 <= k < order ==> visited[k],
            forall|g: int| 0 <= g < rows.len() ==> (#[trigger] rows[g]).len() == order,
            forall|g: int, k: int|
                0 <= g < rows.len() && 0 <= k < order ==> (#[trigger] rows[g][k]).index() == step::<
                    P,
                    C,
                >(k as nat, g),
        decreases gens - rows.len(),
    {
        let g = rows.len();
        let mut row: Vec<C> = Vec::new();
        while row.len() < order
            invariant
                row.len() <= order,
                g < gens,
                order == C::order(),
                gens == P::generator_count(),
                searching::<P, C>(cells@, visited@, stack@, None),
                stack.len() == 0,
                forall|k: int| 0 <= k < order ==> visited[k],
                forall|k: int|
                    0 <= k < row.len() ==> (#[trigger] row[k]).index() == step::<P, C>(
                        k as nat,
                        g as int,
                    ),
            decreases order - row.len(),
        {
            let k = row.len();
            proof {
                assert(!on_stack::<P, C>(stack@, k as nat));
                assert(filled::<P, C>(cells@, visited@, g as int, k as nat));
            }
            let cell = cells[g][k].unwrap();
            row.push(cell);
        }
        rows.push(row);
    }
    proof {
        assert forall|k: nat| k < C::order() implies reachable::<P, C>(k) by {
            assert(visited[k as int]);
        }
    }
    Ok(MoveTable { rows })
}

/// The generator that leads to a reachable coordinate leads on to a reachable one.
pub proof fn lemma_reachable_step<P: GroupPuzzle, C: Coordinate<P>>(c: nat, g: int)
    requires
        reachable::<P, C>(c),
        0 <= g < P::generator_count(),
    ensures
        reachable::<P, C>(step::<P, C>(c, g)),
{
    let path = choose|path: Seq<int>|
        is_path::<P>(path) && follow::<P, C>(start::<P, C>(), path) == c;
    let longer = path.push(g);
    assert(longer.drop_last() =~= path);
    assert(is_path::<P>(longer));
    assert(follow::<P, C>(start::<P, C>(), longer) == step::<P, C>(c, g));
}

/// The coordinate of the solved state is reachable, by the empty path.
pub proof fn lemma_reachable_start<P: GroupPuzzle, C: Coordinate<P>>()
    ensures
        reachable::<P, C>(start::<P, C>()),
{
    let path = Seq::<int>::empty();
    assert(is_path::<P>(path));
    assert(follow::<P, C>(start::<P, C>(), path) == start::<P, C>());
}

/// A set of coordinates that holds the coordinate of the solved state and, with
/// each coordinate, those that the generators lead to from it, holds every
/// reachable coordinate.
pub proof fn lemma_closed_holds_reachable<P: GroupPuzzle, C: Coordinate<P>>(
    visited: Seq<bool>,
    path: Seq<int>,
)
    requires
        is_path::<P>(path),
        start::<P, C>() < visited.len(),
        visited[start::<P, C>() as int],
        forall|c: nat, g: int|
            c < visited.len() && visited[c as int] && 0 <= g < P::generator_count() ==> {
                &&& (#[trigger] step::<P, C>(c, g)) < visited.len()
                &&& visited[step::<P, C>(c, g) as int]
            },
    ensures
        follow::<P, C>(start::<P, C>(), path) < visited.len(),
        visited[follow::<P, C>(start::<P, C>(), path) as int],
    decreases path.len(),
{
    if path.len() > 0 {
        lemma_closed_holds_reachable::<P, C>(visited, path.drop_last());
        let c = follow::<P, C>(start::<P, C>(), path.drop_last());
        assert(0 <= path[path.len() - 1] < P::generator_count());
        assert(step::<P, C>(c, path.last()) < visited.len());
    }
}

/// A path that begins with the generator `g` leads from `s` where the rest of the
/// path leads from the state after `g`.
pub proof fn lemma_apply_path_first<P: GroupPuzzle>(s: P::State, g: int, rest: Seq<int>)
    ensures
        apply_path::<P>(s, seq![g] + rest) == apply_path::<P>(P::apply_generator(s, g), rest),
    decreases rest.len(),
{
    let path = seq![g] + rest;
    if rest.len() == 0 {
        assert(path.drop_last() =~= Seq::<int>::empty());
        assert(path.last() == g);
        assert(apply_path::<P>(s, path.drop_last()) == s);
    } else {
        lemma_apply_path_first::<P>(s, g, rest.drop_last());
        assert(path.drop_last() =~= seq![g] + rest.drop_last());
        assert(path.last() == rest.last());
    }
}

/// Following a path on coordinates gives the coordinate of the state that the
/// path leads to, from any state that the coordinate respects.
pub proof fn lemma_follow_is_coordinate<P: GroupPuzzle, C: Coordinate<P>>(
    s: P::State,
    path: Seq<int>,
)
    requires
        C::respects(s),
        is_path::<P>(path),
    ensures
        C::respects(apply_path::<P>(s, path)),
        C::of_state(apply_path::<P>(s, path)) == follow::<P, C>(C::of_state(s), path),
    decreases path.len(),
{
    if path.len() > 0 {
        lemma_follow_is_coordinate::<P, C>(s, path.drop_last());
        assert(0 <= path[path.len() - 1] < P::generator_count());
        C::lemma_compatible(apply_path::<P>(s, path.drop_last()), path.last());
    }
}

/// A lookup in a move table gives the coordinate of the moved state, for any state
/// that the coordinate respects.
pub proof fn lemma_table_lookup<P: GroupPuzzle, C: Coordinate<P>>(
    table: MoveTable<C>,
    s: P::State,
    g: int,
)
    requires
        table.is_table_of::<P>(),
        C::respects(s),
        0 <= g < P::generator_count(),
    ensures
        C::of_state(s) < C::order(),
        table.rows[g][C::of_state(s) as int].index() == C::of_state(P::apply_generator(s, g)),
{
    C::lemma_compatible(s, g);
}

} // verus!
