//! What holds of the rule and of the grid's operations, proved over the
//! mathematical model.

use crate::grid::LifeGrid;
use crate::rule::{
    alive_next, boundary, generation, lemma_live_neighbor_exists, live_neighbors, neighborhood,
    next_generation, occupied,
};
use vstd::prelude::*;

verus! {

/// The 2×2 block whose corner with the smallest coordinates is `(x, y)`.
pub open spec fn block(x: int, y: int) -> Set<(int, int)> {
    set![(x, y), (x + 1, y), (x, y + 1), (x + 1, y + 1)]
}

/// The horizontal line of three cells centred on `(x, y)`.
pub open spec fn blinker_row(x: int, y: int) -> Set<(int, int)> {
    set![(x - 1, y), (x, y), (x + 1, y)]
}

/// The vertical line of three cells centred on `(x, y)`.
pub open spec fn blinker_column(x: int, y: int) -> Set<(int, int)> {
    set![(x, y - 1), (x, y), (x, y + 1)]
}

/// An empty generation is followed by an empty generation.
pub proof fn lemma_empty_stays_empty()
    ensures
        next_generation(Set::<(int, int)>::empty()) == Set::<(int, int)>::empty(),
{
    assert(next_generation(Set::<(int, int)>::empty()) =~= Set::<(int, int)>::empty());
}

/// A 2×2 block, wherever it lies, is followed by itself.
pub proof fn lemma_block_is_stable(x: int, y: int)
    ensures
        next_generation(block(x, y)) == block(x, y),
{
    let b = block(x, y);
    assert forall|c: (int, int)| alive_next(b, c) <==> b.contains(c) by {
        lemma_far_cell_has_no_neighbors(b, c, x, y, x + 1, y + 1);
    }
    assert(next_generation(b) =~= b);
}

/// A single alive cell is followed by an empty generation.
pub proof fn lemma_isolated_cell_dies(c: (int, int))
    ensures
        next_generation(set![c]) == Set::<(int, int)>::empty(),
{
    let s = set![c];
    assert forall|d: (int, int)| !alive_next(s, d) by {
        lemma_far_cell_has_no_neighbors(s, d, c.0, c.1, c.0, c.1);
    }
    assert(next_generation(s) =~= Set::<(int, int)>::empty());
}

/// A horizontal line of three cells is followed by the vertical line through
/// its centre, and that one by the horizontal line again.
pub proof fn lemma_blinker_oscillates(x: int, y: int)
    ensures
        next_generation(blinker_row(x, y)) == blinker_column(x, y),
        next_generation(blinker_column(x, y)) == blinker_row(x, y),
        generation(blinker_row(x, y), 2) == blinker_row(x, y),
{
    let row = blinker_row(x, y);
    lemma_row_turns_upright(x, y);
    lemma_column_lies_down(x, y);
    assert(generation(row, 0) == row);
    assert(generation(row, 1) == next_generation(generation(row, 0)));
    assert(generation(row, 2) == next_generation(generation(row, 1)));
}

proof fn lemma_row_turns_upright(x: int, y: int)
    ensures
        next_generation(blinker_row(x, y)) == blinker_column(x, y),
{
    let row = blinker_row(x, y);
    let column = blinker_column(x, y);
    assert forall|c: (int, int)| alive_next(row, c) <==> column.contains(c) by {
        lemma_far_cell_has_no_neighbors(row, c, x - 1, y, x + 1, y);
    }
    assert(next_generation(row) =~= column);
}

proof fn lemma_column_lies_down(x: int, y: int)
    ensures
        next_generation(blinker_column(x, y)) == blinker_row(x, y),
{
    let row = blinker_row(x, y);
    let column = blinker_column(x, y);
    assert forall|c: (int, int)| alive_next(column, c) <==> row.contains(c) by {
        lemma_far_cell_has_no_neighbors(column, c, x, y - 1, x, y + 1);
    }
    assert(next_generation(column) =~= row);
}

/// A cell more than one step outside a box that holds every alive cell has
/// no alive neighbour.
proof fn lemma_far_cell_has_no_neighbors(
    alive: Set<(int, int)>,
    c: (int, int),
    x0: int,
    y0: int,
    x1: int,
    y1: int,
)
    requires
        forall|a: (int, int)| alive.contains(a) ==> x0 <= a.0 <= x1 && y0 <= a.1 <= y1,
    ensures
        c.0 < x0 - 1 || c.0 > x1 + 1 || c.1 < y0 - 1 || c.1 > y1 + 1 ==> live_neighbors(alive, c)
            == 0 && !alive.contains(c),
{
}

/// A dead cell is alive in the next generation exactly when three of its
/// neighbours are alive, whatever else is alive elsewhere.
pub proof fn lemma_birth_rule(alive: Set<(int, int)>, c: (int, int))
    requires
        !alive.contains(c),
    ensures
        next_generation(alive).contains(c) <==> live_neighbors(alive, c) == 3,
{
}

/// An alive cell is alive in the next generation exactly when two or three
/// of its neighbours are alive.
pub proof fn lemma_survival_rule(alive: Set<(int, int)>, c: (int, int))
    requires
        alive.contains(c),
    ensures
        next_generation(alive).contains(c) <==> live_neighbors(alive, c) == 2 || live_neighbors(
            alive,
            c,
        ) == 3,
{
}

/// Making a cell alive twice is the same as making it alive once.
pub proof fn lemma_insert_idempotent(alive: Set<(int, int)>, c: (int, int))
    ensures
        alive.insert(c).insert(c) == alive.insert(c),
{
    assert(alive.insert(c).insert(c) =~= alive.insert(c));
}

/// Making a dead cell dead changes nothing.
pub proof fn lemma_remove_absent(alive: Set<(int, int)>, c: (int, int))
    requires
        !alive.contains(c),
    ensures
        alive.remove(c) == alive,
{
    assert(alive.remove(c) =~= alive);
}

/// The live-neighbour count of a cell is the number of alive cells in its
/// Moore neighbourhood: each alive neighbour counts once, however many
/// alive cells it is itself a neighbour of.
pub proof fn lemma_count_is_cardinality(alive: Set<(int, int)>, c: (int, int))
    ensures
        neighborhood(c).finite(),
        neighborhood(c).len() == 8,
        live_neighbors(alive, c) == neighborhood(c).intersect(alive).len(),
{
    let (x, y) = c;
    let c0 = (x - 1, y - 1);
    let c1 = (x - 1, y);
    let c2 = (x - 1, y + 1);
    let c3 = (x, y - 1);
    let c4 = (x, y + 1);
    let c5 = (x + 1, y - 1);
    let c6 = (x + 1, y);
    let c7 = (x + 1, y + 1);
    assert(neighborhood(c) =~= set![c0, c1, c2, c3, c4, c5, c6, c7]);
    let e = Set::<(int, int)>::empty();
    let s0 = if alive.contains(c0) { e.insert(c0) } else { e };
    let s1 = if alive.contains(c1) { s0.insert(c1) } else { s0 };
    let s2 = if alive.contains(c2) { s1.insert(c2) } else { s1 };
    let s3 = if alive.contains(c3) { s2.insert(c3) } else { s2 };
    let s4 = if alive.contains(c4) { s3.insert(c4) } else { s3 };
    let s5 = if alive.contains(c5) { s4.insert(c5) } else { s4 };
    let s6 = if alive.contains(c6) { s5.insert(c6) } else { s5 };
    let s7 = if alive.contains(c7) { s6.insert(c7) } else { s6 };
    assert(s0.finite() && s0.len() == occupied(alive, c0.0, c0.1));
    assert(s1.finite() && s1.len() == s0.len() + occupied(alive, c1.0, c1.1));
    assert(s2.finite() && s2.len() == s1.len() + occupied(alive, c2.0, c2.1));
    assert(s3.finite() && s3.len() == s2.len() + occupied(alive, c3.0, c3.1));
    assert(s4.finite() && s4.len() == s3.len() + occupied(alive, c4.0, c4.1));
    assert(s5.finite() && s5.len() == s4.len() + occupied(alive, c5.0, c5.1));
    assert(s6.finite() && s6.len() == s5.len() + occupied(alive, c6.0, c6.1));
    assert(s7.finite() && s7.len() == s6.len() + occupied(alive, c7.0, c7.1));
    assert(neighborhood(c).intersect(alive) =~= s7);
}

/// Whether a dead cell is born depends on nothing but its live-neighbour
/// count: two generations that give it the same count agree on it.
pub proof fn lemma_birth_depends_on_count_alone(
    first: Set<(int, int)>,
    second: Set<(int, int)>,
    c: (int, int),
)
    requires
        !first.contains(c),
        !second.contains(c),
        live_neighbors(first, c) == live_neighbors(second, c),
    ensures
        next_generation(first).contains(c) == next_generation(second).contains(c),
{
}

/// Every cell of the next generation is alive now or is a dead neighbour of
/// an alive cell, so visiting those cells suffices.
pub proof fn lemma_next_within_reach(alive: Set<(int, int)>)
    ensures
        next_generation(alive).subset_of(alive.union(boundary(alive))),
{
    assert forall|c: (int, int)| next_generation(alive).contains(c) implies alive.union(
        boundary(alive),
    ).contains(c) by {
        if !alive.contains(c) {
            lemma_live_neighbor_exists(alive, c);
        }
    }
}

/// Taking `n` steps and then one more is taking one step and then `n`.
pub proof fn lemma_generation_unfolds(alive: Set<(int, int)>, n: nat)
    ensures
        generation(alive, n + 1) == generation(next_generation(alive), n),
    decreases n,
{
    assert(generation(alive, n + 1) == next_generation(generation(alive, n)));
    if n == 0 {
        assert(generation(alive, 0) == alive);
        assert(generation(next_generation(alive), 0) == next_generation(alive));
    } else {
        lemma_generation_unfolds(alive, (n - 1) as nat);
        assert(generation(next_generation(alive), n) == next_generation(
            generation(next_generation(alive), (n - 1) as nat),
        ));
    }
}

/// Two grids that hold the same alive cells hold the same alive cells after
/// any number of steps, however each of them stores and walks its cells.
pub proof fn lemma_same_cells_same_future(first: &LifeGrid, second: &LifeGrid, n: nat)
    requires
        first@ == second@,
    ensures
        generation(first@, n) == generation(second@, n),
{
}

} // verus!
