//! The neighborhood of a cell and the survival rule of the automaton.

use vstd::prelude::*;

verus! {

/// The six axial offsets that lead from a cell to its neighbors.
pub const NEIGHBORS: [(i32, i32); 6] = [(1, 0), (0, 1), (-1, 0), (0, -1), (1, -1), (-1, 1)];

/// The six neighbor offsets as mathematical pairs, in the order of
/// [`NEIGHBORS`].
pub open spec fn neighbor_offsets() -> Seq<(int, int)> {
    seq![(1, 0), (0, 1), (-1, 0), (0, -1), (1, -1), (-1, 1)]
}

/// The position `c` moved by the offset `d`.
pub open spec fn shift(c: (int, int), d: (int, int)) -> (int, int) {
    (c.0 + d.0, c.1 + d.1)
}

/// The `k`-th neighbor of `c`.
pub open spec fn neighbor(c: (int, int), k: int) -> (int, int) {
    shift(c, neighbor_offsets()[k])
}

/// Index of the offset that undoes the `k`-th offset.
pub open spec fn opposite(k: int) -> int {
    if k == 0 {
        2
    } else if k == 1 {
        3
    } else if k == 2 {
        0
    } else if k == 3 {
        1
    } else if k == 4 {
        5
    } else {
        4
    }
}

/// Whether `c` is a key of `grid` and its cell is alive. A position outside
/// the grid counts as dead.
pub open spec fn is_alive(grid: Map<(int, int), bool>, c: (int, int)) -> bool {
    grid.contains_key(c) && grid[c]
}

/// What a lookup of `c` in `grid` yields: the alive flag of a key, and
/// nothing for a position outside the grid.
pub open spec fn state_at(grid: Map<(int, int), bool>, c: (int, int)) -> Option<bool> {
    if grid.contains_key(c) {
        Some(grid[c])
    } else {
        None
    }
}

/// One for a live cell, zero for a dead one.
pub open spec fn one_if(alive: bool) -> int {
    if alive {
        1
    } else {
        0
    }
}

/// Number of live cells among the first `k` neighbors of `c`.
pub open spec fn live_among(grid: Map<(int, int), bool>, c: (int, int), k: nat) -> int
    decreases k,
{
    if k == 0 {
        0
    } else {
        live_among(grid, c, (k - 1) as nat) + one_if(is_alive(grid, neighbor(c, k - 1)))
    }
}

/// Number of live neighbors of `c`; zero when `c` itself is no key of `grid`.
pub open spec fn live_neighbors(grid: Map<(int, int), bool>, c: (int, int)) -> int {
    if grid.contains_key(c) {
        live_among(grid, c, 6)
    } else {
        0
    }
}

/// The generation that follows `grid`: the same keys, and a cell is alive
/// exactly if two of its neighbors were alive in `grid`.
pub open spec fn next_generation(grid: Map<(int, int), bool>) -> Map<(int, int), bool> {
    Map::new(|c: (int, int)| grid.contains_key(c), |c: (int, int)| live_neighbors(grid, c) == 2)
}

/// The constant [`NEIGHBORS`] holds the offsets of [`neighbor_offsets`].
pub proof fn lemma_neighbors_constant()
    ensures
        NEIGHBORS@.len() == 6,
        neighbor_offsets().len() == 6,
        forall|k: int|
            0 <= k < 6 ==> (#[trigger] NEIGHBORS@[k].0 as int, NEIGHBORS@[k].1 as int)
                == neighbor_offsets()[k],
{
}

/// A partial count of live neighbors lies between zero and the number of
/// neighbors looked at.
pub proof fn lemma_live_among_bounds(grid: Map<(int, int), bool>, c: (int, int), k: nat)
    ensures
        0 <= live_among(grid, c, k) <= k,
    decreases k,
{
    if k > 0 {
        lemma_live_among_bounds(grid, c, (k - 1) as nat);
    }
}

/// The count of live neighbors of a key, written out offset by offset.
pub proof fn lemma_live_neighbors_by_offset(grid: Map<(int, int), bool>, c: (int, int))
    requires
        grid.contains_key(c),
    ensures
        live_neighbors(grid, c) == one_if(is_alive(grid, (c.0 + 1, c.1)))
            + one_if(is_alive(grid, (c.0, c.1 + 1)))
            + one_if(is_alive(grid, (c.0 - 1, c.1)))
            + one_if(is_alive(grid, (c.0, c.1 - 1)))
            + one_if(is_alive(grid, (c.0 + 1, c.1 - 1)))
            + one_if(is_alive(grid, (c.0 - 1, c.1 + 1))),
{
    reveal_with_fuel(live_among, 7);
}

/// A cell has between zero and six live neighbors.
pub proof fn lemma_live_neighbors_bounds(grid: Map<(int, int), bool>, c: (int, int))
    ensures
        0 <= live_neighbors(grid, c) <= 6,
{
    lemma_live_among_bounds(grid, c, 6);
}

/// The six offsets are closed under negation: the opposite of each offset is
/// its negation, and taking the opposite twice leads back.
pub proof fn lemma_offsets_closed_under_negation(k: int)
    requires
        0 <= k < 6,
    ensures
        0 <= opposite(k) < 6,
        opposite(opposite(k)) == k,
        neighbor_offsets()[opposite(k)] == (-neighbor_offsets()[k].0, -neighbor_offsets()[k].1),
{
}

/// Neighbor symmetry: if `a` is the neighbor of `b` by the `k`-th offset,
/// then `b` is the neighbor of `a` by the negated offset.
pub proof fn lemma_neighbor_symmetry(a: (int, int), b: (int, int), k: int)
    requires
        0 <= k < 6,
        a == neighbor(b, k),
    ensures
        b == neighbor(a, opposite(k)),
        b == shift(a, (-neighbor_offsets()[k].0, -neighbor_offsets()[k].1)),
{
}

} // verus!
