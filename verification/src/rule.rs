//! The lattice, the Moore neighbourhood and the rule that turns one
//! generation into the next, as mathematics over `Set<(int, int)>`.
//!
//! A generation is the set of its alive cells. The lattice is unbounded:
//! coordinates are mathematical integers.

use vstd::prelude::*;

verus! {

/// Live-neighbour count at which a cell is alive in the next generation
/// whether or not it is alive now.
pub const BIRTH_SURVIVE_COUNT: u8 = 3;

/// Live-neighbour count at which a cell that is alive now stays alive.
pub const SURVIVE_ONLY_COUNT: u8 = 2;

/// Whether both coordinates of `c` are values of `i32`.
pub open spec fn representable(c: (int, int)) -> bool {
    i32::MIN <= c.0 <= i32::MAX && i32::MIN <= c.1 <= i32::MAX
}

/// The lattice point that a cell given by machine integers stands for.
pub open spec fn point(cell: (i32, i32)) -> (int, int) {
    (cell.0 as int, cell.1 as int)
}

/// 1 if the cell at `(x, y)` is alive, 0 otherwise.
pub open spec fn occupied(alive: Set<(int, int)>, x: int, y: int) -> nat {
    if alive.contains((x, y)) {
        1
    } else {
        0
    }
}

/// The number of alive cells among the eight Moore neighbours of `c`.
/// The cell `c` itself is not counted.
pub open spec fn live_neighbors(alive: Set<(int, int)>, c: (int, int)) -> nat {
    occupied(alive, c.0 - 1, c.1 - 1) + occupied(alive, c.0 - 1, c.1) + occupied(
        alive,
        c.0 - 1,
        c.1 + 1,
    ) + occupied(alive, c.0, c.1 - 1) + occupied(alive, c.0, c.1 + 1) + occupied(
        alive,
        c.0 + 1,
        c.1 - 1,
    ) + occupied(alive, c.0 + 1, c.1) + occupied(alive, c.0 + 1, c.1 + 1)
}

/// Whether `c` is alive in the generation that follows `alive`.
pub open spec fn alive_next(alive: Set<(int, int)>, c: (int, int)) -> bool {
    live_neighbors(alive, c) == BIRTH_SURVIVE_COUNT || (alive.contains(c) && live_neighbors(
        alive,
        c,
    ) == SURVIVE_ONLY_COUNT)
}

/// The generation that follows `alive`.
pub open spec fn next_generation(alive: Set<(int, int)>) -> Set<(int, int)> {
    Set::new(|c: (int, int)| alive_next(alive, c))
}

/// The generation reached from `alive` after `n` steps.
pub open spec fn generation(alive: Set<(int, int)>, n: nat) -> Set<(int, int)>
    decreases n,
{
    if n == 0 {
        alive
    } else {
        next_generation(generation(alive, (n - 1) as nat))
    }
}

/// Whether `a` and `b` are Moore neighbours: distinct, and at most one apart
/// along each axis.
pub open spec fn adjacent(a: (int, int), b: (int, int)) -> bool {
    a != b && -1 <= a.0 - b.0 <= 1 && -1 <= a.1 - b.1 <= 1
}

/// The eight Moore neighbours of `c`.
pub open spec fn neighborhood(c: (int, int)) -> Set<(int, int)> {
    Set::new(|a: (int, int)| adjacent(a, c))
}

/// The dead cells that have at least one alive neighbour: the only dead
/// cells that can be alive in the next generation.
pub open spec fn boundary(alive: Set<(int, int)>) -> Set<(int, int)> {
    Set::new(
        |c: (int, int)|
            !alive.contains(c) && exists|a: (int, int)| alive.contains(a) && adjacent(a, c),
    )
}

/// Whether a cell lies strictly inside the range of `i32` on both axes, so
/// that each of its neighbours has coordinates in that range.
pub open spec fn interior(c: (int, int)) -> bool {
    i32::MIN < c.0 < i32::MAX && i32::MIN < c.1 < i32::MAX
}

/// Whether every alive cell is interior, so that every cell of the next
/// generation has coordinates in the range of `i32`.
pub open spec fn steppable(alive: Set<(int, int)>) -> bool {
    forall|c: (int, int)| alive.contains(c) ==> interior(c)
}

/// A cell with a live neighbour count above zero has an alive neighbour.
pub proof fn lemma_live_neighbor_exists(alive: Set<(int, int)>, c: (int, int))
    requires
        live_neighbors(alive, c) > 0,
    ensures
        exists|a: (int, int)| alive.contains(a) && adjacent(a, c),
{
    if alive.contains((c.0 - 1, c.1 - 1)) {
        assert(adjacent((c.0 - 1, c.1 - 1), c));
    } else if alive.contains((c.0 - 1, c.1)) {
        assert(adjacent((c.0 - 1, c.1), c));
    } else if alive.contains((c.0 - 1, c.1 + 1)) {
        assert(adjacent((c.0 - 1, c.1 + 1), c));
    } else if alive.contains((c.0, c.1 - 1)) {
        assert(adjacent((c.0, c.1 - 1), c));
    } else if alive.contains((c.0, c.1 + 1)) {
        assert(adjacent((c.0, c.1 + 1), c));
    } else if alive.contains((c.0 + 1, c.1 - 1)) {
        assert(adjacent((c.0 + 1, c.1 - 1), c));
    } else if alive.contains((c.0 + 1, c.1)) {
        assert(adjacent((c.0 + 1, c.1), c));
    } else {
        assert(alive.contains((c.0 + 1, c.1 + 1)));
        assert(adjacent((c.0 + 1, c.1 + 1), c));
    }
}

} // verus!
