//! The grid of alive cells and the step that advances it by one generation.

use crate::key::{cell_of, decode, encode, key_of, lemma_cell_roundtrip, lemma_key_roundtrip};
use crate::rule::{
    adjacent, alive_next, interior, lemma_live_neighbor_exists, live_neighbors, next_generation,
    point, representable, steppable, BIRTH_SURVIVE_COUNT, SURVIVE_ONLY_COUNT,
};
use std::collections::HashSet;
use vstd::prelude::*;
use vstd::std_specs::iter::IteratorSpec;

verus! {

/// The set of cells that are alive in the current generation.
///
/// A cell is a pair of `i32` coordinates. The view is the set of alive cells
/// as points of the unbounded lattice.
pub struct LifeGrid {
    keys: HashSet<u64>,
}

impl View for LifeGrid {
    type V = Set<(int, int)>;

    closed spec fn view(&self) -> Set<(int, int)> {
        Set::new(|c: (int, int)| representable(c) && self.keys@.contains(key_of(c)))
    }
}

/// The lattice points that a sequence of cells stands for, in the same order.
pub open spec fn points(cells: Seq<(i32, i32)>) -> Seq<(int, int)> {
    cells.map_values(|cell: (i32, i32)| point(cell))
}

/// Whether `q` is among the first `n` of `keys`.
spec fn visited(keys: Seq<&u64>, n: int, q: u64) -> bool {
    exists|i: int| 0 <= i < n && *keys[i] == q
}

/// Whether one of the first `n` of `keys` stands for a neighbour of the cell
/// that `q` stands for.
spec fn reached(keys: Seq<&u64>, n: int, q: u64) -> bool {
    exists|i: int| 0 <= i < n && adjacent(cell_of(*keys[i]), cell_of(q))
}

impl LifeGrid {
    /// The alive cells are finitely many, and each has coordinates in the
    /// range of `i32`.
    pub proof fn lemma_alive_bounded(&self)
        ensures
            self@.finite(),
            forall|c: (int, int)| self@.contains(c) ==> representable(c),
    {
        let all = self.keys.iter().remaining().unref();
        let cells = all.map_values(|k: u64| cell_of(k));
        assert forall|c: (int, int)| self@.contains(c) implies cells.to_set().contains(c) by {
            lemma_key_roundtrip(c);
            assert(all.to_set().contains(key_of(c)));
            let i = choose|i: int| 0 <= i < all.len() && all[i] == key_of(c);
            assert(cells[i] == c);
        }
        vstd::seq_lib::seq_to_set_is_finite(cells);
        vstd::set_lib::lemma_len_subset(self@, cells.to_set());
    }

    /// An empty grid.
    pub fn new() -> (grid: LifeGrid)
        ensures
            grid@ == Set::<(int, int)>::empty(),
    {
        LifeGrid { keys: HashSet::new() }
    }

    /// Makes `cell` alive.
    pub fn insert(&mut self, cell: (i32, i32))
        ensures
            final(self)@ == old(self)@.insert(point(cell)),
    {
        let k = encode(cell);
        self.keys.insert(k);
        proof {
            lemma_key_roundtrip(point(cell));
            assert forall|c: (int, int)| representable(c) && key_of(c) == k implies c == point(
                cell,
            ) by {
                lemma_key_roundtrip(c);
            }
        }
    }

    /// Makes `cell` dead.
    pub fn remove(&mut self, cell: (i32, i32))
        ensures
            final(self)@ == old(self)@.remove(point(cell)),
    {
        let k = encode(cell);
        self.keys.remove(&k);
        proof {
            lemma_key_roundtrip(point(cell));
            assert forall|c: (int, int)| representable(c) && key_of(c) == k implies c == point(
                cell,
            ) by {
                lemma_key_roundtrip(c);
            }
        }
    }

    /// Makes every cell dead.
    pub fn clear(&mut self)
        ensures
            final(self)@ == Set::<(int, int)>::empty(),
    {
        self.keys.clear();
    }

    /// Whether `cell` is alive.
    pub fn contains(&self, cell: (i32, i32)) -> (b: bool)
        ensures
            b == self@.contains(point(cell)),
    {
        let k = encode(cell);
        self.keys.contains(&k)
    }

    /// The alive cells, each once, in no particular order.
    pub fn iterate(&self) -> (cells: Vec<(i32, i32)>)
        ensures
            points(cells@).no_duplicates(),
            points(cells@).to_set() == self@,
    {
        let mut cells: Vec<(i32, i32)> = Vec::new();
        for k in it: self.keys.iter()
            invariant
                it.seq() == self.keys.iter().remaining(),
                cells@.len() == it.index(),
                forall|i: int| 0 <= i < it.index() ==> point(cells@[i]) == cell_of(*it.seq()[i]),
        {
            let cell = decode(*k);
            cells.push(cell);
        }
        proof {
            let all = self.keys.iter().remaining();
            let found = points(cells@);
            assert(all.unref().no_duplicates());
            assert forall|i: int, j: int|
                0 <= i < found.len() && 0 <= j < found.len() && i != j implies found[i]
                != found[j] by {
                lemma_cell_roundtrip(*all[i]);
                lemma_cell_roundtrip(*all[j]);
                assert(all.unref()[i] != all.unref()[j]);
            }
            assert forall|c: (int, int)| found.to_set().contains(c) <==> self@.contains(c) by {
                if found.contains(c) {
                    let i = choose|i: int| 0 <= i < found.len() && found[i] == c;
                    lemma_cell_roundtrip(*all[i]);
                    assert(all.unref()[i] == key_of(c));
                    assert(all.unref().contains(key_of(c)));
                }
                if self@.contains(c) {
                    lemma_key_roundtrip(c);
                    assert(all.unref().to_set().contains(key_of(c)));
                    let i = choose|i: int| 0 <= i < all.len() && all.unref()[i] == key_of(c);
                    assert(found[i] == c);
                }
            }
        }
        cells
    }

    /// Whether the cell at `(x, y)` is alive; a cell outside the range of
    /// `i32` never is.
    pub(crate) fn alive_at(&self, x: i64, y: i64) -> (b: bool)
        ensures
            b == self@.contains((x as int, y as int)),
    {
        if x < -0x8000_0000 || x > 0x7fff_ffff || y < -0x8000_0000 || y > 0x7fff_ffff {
            false
        } else {
            self.contains((x as i32, y as i32))
        }
    }

    /// Counts the alive cells among the eight neighbours of `cell`.
    pub fn count_live_neighbors(&self, cell: (i32, i32)) -> (n: u8)
        ensures
            n == live_neighbors(self@, point(cell)),
    {
        let x: i64 = cell.0 as i64;
        let y: i64 = cell.1 as i64;
        let mut n: u8 = 0;
        if self.alive_at(x - 1, y - 1) {
            n += 1;
        }
        if self.alive_at(x - 1, y) {
            n += 1;
        }
        if self.alive_at(x - 1, y + 1) {
            n += 1;
        }
        if self.alive_at(x, y - 1) {
            n += 1;
        }
        if self.alive_at(x, y + 1) {
            n += 1;
        }
        if self.alive_at(x + 1, y - 1) {
            n += 1;
        }
        if self.alive_at(x + 1, y) {
            n += 1;
        }
        if self.alive_at(x + 1, y + 1) {
            n += 1;
        }
        n
    }

    /// Adds `cell` to `candidates` unless it is alive.
    fn add_candidate(&self, cell: (i32, i32), candidates: &mut HashSet<u64>)
        ensures
            final(candidates)@ == if self.keys@.contains(key_of(point(cell))) {
                old(candidates)@
            } else {
                old(candidates)@.insert(key_of(point(cell)))
            },
    {
        let k = encode(cell);
        if !self.keys.contains(&k) {
            candidates.insert(k);
        }
    }

    /// Adds the dead neighbours of `cell` to `candidates`.
    fn add_dead_neighbors(&self, cell: (i32, i32), candidates: &mut HashSet<u64>)
        requires
            interior(point(cell)),
        ensures
            forall|q: u64|
                final(candidates)@.contains(q) <==> old(candidates)@.contains(q) || (
                !self.keys@.contains(q) && adjacent(point(cell), cell_of(q))),
    {
        let (x, y) = cell;
        self.add_candidate((x - 1, y - 1), candidates);
        self.add_candidate((x - 1, y), candidates);
        self.add_candidate((x - 1, y + 1), candidates);
        self.add_candidate((x, y - 1), candidates);
        self.add_candidate((x, y + 1), candidates);
        self.add_candidate((x + 1, y - 1), candidates);
        self.add_candidate((x + 1, y), candidates);
        self.add_candidate((x + 1, y + 1), candidates);
        proof {
            lemma_key_roundtrip((x - 1, y - 1));
            lemma_key_roundtrip((x - 1, y as int));
            lemma_key_roundtrip((x - 1, y + 1));
            lemma_key_roundtrip((x as int, y - 1));
            lemma_key_roundtrip((x as int, y + 1));
            lemma_key_roundtrip((x + 1, y - 1));
            lemma_key_roundtrip((x + 1, y as int));
            lemma_key_roundtrip((x + 1, y + 1));
            assert forall|q: u64|
                final(candidates)@.contains(q) <==> old(candidates)@.contains(q) || (
                !self.keys@.contains(q) && adjacent(point(cell), cell_of(q))) by {
                lemma_cell_roundtrip(q);
            }
        }
    }

    /// Whether every alive cell lies strictly inside the range of `i32`, which
    /// is what `step` asks for.
    pub fn can_step(&self) -> (b: bool)
        ensures
            b == steppable(self@),
    {
        for k in it: self.keys.iter()
            invariant
                it.seq() == self.keys.iter().remaining(),
                forall|i: int| 0 <= i < it.index() ==> interior(cell_of(*it.seq()[i])),
        {
            let (x, y) = decode(*k);
            if x == i32::MIN || x == i32::MAX || y == i32::MIN || y == i32::MAX {
                proof {
                    lemma_cell_roundtrip(*k);
                    assert(self@.contains(cell_of(*k)) && !interior(cell_of(*k)));
                }
                return false;
            }
        }
        proof {
            let all = self.keys.iter().remaining();
            assert forall|c: (int, int)| self@.contains(c) implies interior(c) by {
                lemma_key_roundtrip(c);
                assert(all.unref().to_set().contains(key_of(c)));
                assert(all.unref().contains(key_of(c)));
            }
        }
        true
    }

    /// Advances the grid by one generation.
    ///
    /// Only the alive cells and their dead neighbours are visited. Every
    /// neighbour count is taken from the generation that is being replaced,
    /// which stays untouched until the new one is complete.
    pub fn step(&mut self)
        requires
            steppable(old(self)@),
        ensures
            final(self)@ == next_generation(old(self)@),
    {
        let mut next: HashSet<u64> = HashSet::new();
        let mut candidates: HashSet<u64> = HashSet::new();
        for k in it: self.keys.iter()
            invariant
                steppable(self@),
                it.seq() == self.keys.iter().remaining(),
                forall|q: u64|
                    next@.contains(q) <==> visited(it.seq(), it.index(), q) && alive_next(
                        self@,
                        cell_of(q),
                    ),
                forall|q: u64|
                    candidates@.contains(q) <==> !self.keys@.contains(q) && reached(
                        it.seq(),
                        it.index(),
                        q,
                    ),
        {
            proof {
                lemma_cell_roundtrip(*k);
                assert(self@.contains(cell_of(*k)));
            }
            let cell = decode(*k);
            let n = self.count_live_neighbors(cell);
            if n == BIRTH_SURVIVE_COUNT || n == SURVIVE_ONLY_COUNT {
                next.insert(*k);
            }
            self.add_dead_neighbors(cell, &mut candidates);
            proof {
                let i0 = it.index();
                assert forall|q: u64| visited(it.seq(), i0 + 1, q) <==> visited(it.seq(), i0, q)
                    || q == *k by {
                    if visited(it.seq(), i0 + 1, q) {
                        let i = choose|i: int| 0 <= i < i0 + 1 && *it.seq()[i] == q;
                        if i < i0 {
                            assert(visited(it.seq(), i0, q));
                        }
                    }
                    if q == *k {
                        assert(*it.seq()[i0] == q);
                    }
                }
                assert forall|q: u64| reached(it.seq(), i0 + 1, q) <==> reached(it.seq(), i0, q)
                    || adjacent(cell_of(*k), cell_of(q)) by {
                    if reached(it.seq(), i0 + 1, q) {
                        let i = choose|i: int|
                            0 <= i < i0 + 1 && adjacent(cell_of(*it.seq()[i]), cell_of(q));
                        if i < i0 {
                            assert(reached(it.seq(), i0, q));
                        }
                    }
                    if adjacent(cell_of(*k), cell_of(q)) {
                        assert(adjacent(cell_of(*it.seq()[i0]), cell_of(q)));
                    }
                }
            }
        }
        let ghost alive = self@;
        let ghost all = self.keys.iter().remaining();
        proof {
            assert forall|q: u64| self.keys@.contains(q) <==> visited(
                all,
                all.len() as int,
                q,
            ) by {
                if self.keys@.contains(q) {
                    assert(all.unref().to_set().contains(q));
                    assert(all.unref().contains(q));
                }
                if visited(all, all.len() as int, q) {
                    let i = choose|i: int| 0 <= i < all.len() && *all[i] == q;
                    assert(all.unref()[i] == q);
                    assert(all.unref().contains(q));
                }
            }
        }
        for k in it: candidates.iter()
            invariant
                it.seq() == candidates.iter().remaining(),
                forall|q: u64| candidates@.contains(q) ==> !self.keys@.contains(q),
                forall|q: u64|
                    next@.contains(q) <==> (self.keys@.contains(q) || visited(
                        it.seq(),
                        it.index(),
                        q,
                    )) && alive_next(self@, cell_of(q)),
        {
            let cell = decode(*k);
            let n = self.count_live_neighbors(cell);
            if n == BIRTH_SURVIVE_COUNT {
                next.insert(*k);
            }
            proof {
                lemma_cell_roundtrip(*k);
                let i0 = it.index();
                assert forall|q: u64| visited(it.seq(), i0 + 1, q) <==> visited(it.seq(), i0, q)
                    || q == *k by {
                    if visited(it.seq(), i0 + 1, q) {
                        let i = choose|i: int| 0 <= i < i0 + 1 && *it.seq()[i] == q;
                        if i < i0 {
                            assert(visited(it.seq(), i0, q));
                        }
                    }
                    if q == *k {
                        assert(*it.seq()[i0] == q);
                    }
                }
            }
        }
        proof {
            let born = candidates.iter().remaining();
            assert forall|c: (int, int)| alive_next(alive, c) && !alive.contains(c) implies
                representable(c) && visited(born, born.len() as int, key_of(c)) by {
                lemma_live_neighbor_exists(alive, c);
                let a = choose|a: (int, int)| alive.contains(a) && adjacent(a, c);
                assert(interior(a));
                lemma_key_roundtrip(a);
                lemma_key_roundtrip(c);
                assert(visited(all, all.len() as int, key_of(a)));
                assert(reached(all, all.len() as int, key_of(c)));
                assert(born.unref().to_set().contains(key_of(c)));
                assert(born.unref().contains(key_of(c)));
            }
            assert forall|c: (int, int)|
                (representable(c) && next@.contains(key_of(c))) <==> alive_next(alive, c) by {
                if representable(c) {
                    lemma_key_roundtrip(c);
                }
            }
        }
        self.keys = next;
    }
}

} // verus!
