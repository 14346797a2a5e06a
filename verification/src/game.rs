//! The automaton: a double-buffered grid of cells over a hexagonal region.

use vstd::prelude::*;
use crate::hex::HexInt;
use crate::random::draw;
use crate::region::{
    cell_count, count_before, in_region, lemma_cell_position, lemma_cells_before_len,
    lemma_cells_before_members, lemma_count_before_monotonic, lemma_region_cells,
    lemma_region_cells_len, lemma_region_count, region, region_cells, row_len, row_max, row_min,
};
use crate::rule::{
    lemma_neighbors_constant, live_among, live_neighbors, next_generation, state_at, NEIGHBORS,
};

verus! {

/// Whether `rows` holds one row per `q` of the region, each as long as the
/// region's row.
spec fn shaped(rows: Seq<Vec<bool>>, radius: int) -> bool {
    &&& rows.len() == 2 * radius + 1
    &&& forall|k: int|
        0 <= k < rows.len() ==> (#[trigger] rows[k])@.len() == row_len(radius, k - radius)
}

/// The grid that `rows` stores: the cell `(q, r)` stands in row `q + radius`
/// at column `r - row_min(radius, q)`.
spec fn grid_of(rows: Seq<Vec<bool>>, radius: int) -> Map<(int, int), bool> {
    Map::new(
        |c: (int, int)| in_region(radius, c),
        |c: (int, int)| rows[c.0 + radius]@[c.1 - row_min(radius, c.0)],
    )
}

/// Whether the first `upto` cells of `row`, the row of `q`, hold what the
/// survival rule makes of `grid`.
spec fn row_advanced(
    row: Seq<bool>,
    grid: Map<(int, int), bool>,
    radius: int,
    q: int,
    upto: int,
) -> bool {
    forall|b: int|
        0 <= b < upto ==> #[trigger] row[b] == (live_neighbors(grid, (q, row_min(radius, q) + b))
            == 2)
}

/// Whether the first `upto` cells of `row` are set from the draws that
/// begin at position `start`.
spec fn row_seeded(row: Seq<bool>, draws: Seq<(bool, bool, bool)>, start: int, upto: int) -> bool {
    forall|b: int| 0 <= b < upto ==> #[trigger] row[b] == all_three(draws[start + b])
}

/// Whether `cells` lists, as far as it goes, the cells of `grid` with their
/// alive flags in the row-major order of the region.
pub open spec fn lists_start(
    cells: Seq<(HexInt, bool)>,
    grid: Map<(int, int), bool>,
    radius: int,
) -> bool {
    forall|i: int|
        0 <= i < cells.len() ==> (#[trigger] cells[i]).0@ == region_cells(radius)[i] && cells[i].1
            == grid[region_cells(radius)[i]]
}

/// Whether `cells` lists all cells of `grid` with their alive flags in the
/// row-major order of the region.
pub open spec fn lists_grid(
    cells: Seq<(HexInt, bool)>,
    grid: Map<(int, int), bool>,
    radius: int,
) -> bool {
    &&& cells.len() == region_cells(radius).len()
    &&& lists_start(cells, grid, radius)
}

/// Whether all three draws came up true.
pub open spec fn all_three(draw: (bool, bool, bool)) -> bool {
    draw.0 && draw.1 && draw.2
}

/// Whether every cell of `grid` is alive exactly if the three draws at its
/// position in the row-major order all came up true.
pub open spec fn seeded_by(
    grid: Map<(int, int), bool>,
    draws: Seq<(bool, bool, bool)>,
    radius: int,
) -> bool {
    &&& draws.len() == region_cells(radius).len()
    &&& forall|i: int|
        0 <= i < draws.len() ==> #[trigger] grid[region_cells(radius)[i]] == all_three(draws[i])
}

/// The grid of the given radius in which every cell is dead.
pub open spec fn dead_grid(radius: int) -> Map<(int, int), bool> {
    Map::new(|c: (int, int)| in_region(radius, c), |c: (int, int)| false)
}

/// The smallest `r` in the row of `q` on a grid of radius `bound`.
fn first_r(bound: i64, q: i64) -> (lo: i64)
    requires
        0 <= bound <= i32::MAX,
        -bound <= q <= bound,
    ensures
        lo == row_min(bound as int, q as int),
{
    if -q - bound >= -bound {
        -q - bound
    } else {
        -bound
    }
}

/// The largest `r` in the row of `q` on a grid of radius `bound`.
fn last_r(bound: i64, q: i64) -> (hi: i64)
    requires
        0 <= bound <= i32::MAX,
        -bound <= q <= bound,
    ensures
        hi == row_max(bound as int, q as int),
{
    if -q + bound <= bound {
        -q + bound
    } else {
        bound
    }
}

/// A hexagonal game of life: the current generation and a scratch buffer of
/// the same shape, which trade places at every update.
pub struct HexGOL {
    size: i32,
    game: Vec<Vec<bool>>,
    game_back: Vec<Vec<bool>>,
}

impl View for HexGOL {
    type V = Map<(int, int), bool>;

    /// The current generation: alive flag by axial coordinate.
    closed spec fn view(&self) -> Map<(int, int), bool> {
        grid_of(self.game@, self.size as int)
    }
}

impl HexGOL {
    /// The radius the grid was built with.
    pub closed spec fn radius(&self) -> int {
        self.size as int
    }

    /// Both buffers have the shape of the region.
    pub closed spec fn inv(&self) -> bool {
        &&& self.size >= 0
        &&& shaped(self.game@, self.size as int)
        &&& shaped(self.game_back@, self.size as int)
    }

    /// Well-formedness: the buffers are intact and the key set is exactly
    /// the hexagonal region of the grid's radius.
    pub open spec fn wf(&self) -> bool {
        &&& self.inv()
        &&& 0 <= self.radius() <= i32::MAX
        &&& self@.dom() == region(self.radius())
    }

    /// Builds the grid of radius `size` with every cell dead.
    pub fn new(size: i32) -> (g: Self)
        requires
            size >= 0,
        ensures
            g.wf(),
            g.radius() == size,
            g@ == dead_grid(size as int),
            g@.dom().finite(),
            g@.dom().len() == cell_count(size as int),
    {
        let bound: i64 = size as i64;
        let mut game: Vec<Vec<bool>> = Vec::new();
        let mut q: i64 = -bound;
        while q <= bound
            invariant
                bound == size,
                0 <= bound,
                -bound <= q <= bound + 1,
                game@.len() == q + bound,
                forall|k: int|
                    0 <= k < game@.len() ==> (#[trigger] game@[k])@.len() == row_len(
                        bound as int,
                        k - bound,
                    ),
                forall|k: int, j: int|
                    0 <= k < game@.len() && 0 <= j < game@[k]@.len() ==> !(#[trigger] game@[k]@[j]),
            decreases bound + 1 - q,
        {
            let lo: i64 = first_r(bound, q);
            let hi: i64 = last_r(bound, q);
            let mut row: Vec<bool> = Vec::new();
            let mut r: i64 = lo;
            while r <= hi
                invariant
                    lo <= r <= hi + 1,
                    -bound <= lo,
                    hi <= bound <= i32::MAX,
                    row@.len() == r - lo,
                    forall|j: int| 0 <= j < row@.len() ==> !(#[trigger] row@[j]),
                decreases hi + 1 - r,
            {
                row.push(false);
                r = r + 1;
            }
            game.push(row);
            q = q + 1;
        }
        let game_back = game.clone();
        let g = Self { size, game, game_back };
        proof {
            assert(g@.dom() =~= region(size as int));
            assert(g@ =~= dead_grid(size as int));
            lemma_region_count(size as int);
        }
        g
    }

    /// Builds the grid of radius `size` with every cell dead, or nothing if
    /// `size` is negative.
    pub fn try_new(size: i32) -> (built: Option<Self>)
        ensures
            built.is_some() <==> size >= 0,
            built matches Some(g) ==> {
                &&& g.wf()
                &&& g.radius() == size
                &&& g@ == dead_grid(size as int)
                &&& g@.dom().finite()
                &&& g@.dom().len() == cell_count(size as int)
            },
    {
        if size >= 0 {
            Some(Self::new(size))
        } else {
            None
        }
    }

    /// The alive flag of the cell at `(q, r)`, or `None` outside the grid.
    fn cell(&self, q: i64, r: i64) -> (state: Option<bool>)
        requires
            self.wf(),
        ensures
            state == state_at(self@, (q as int, r as int)),
    {
        let bound: i64 = self.size as i64;
        if q < -bound || q > bound {
            return None;
        }
        let lo: i64 = first_r(bound, q);
        let hi: i64 = last_r(bound, q);
        if r < lo || r > hi {
            return None;
        }
        let k: usize = (q + bound) as usize;
        let j: usize = (r - lo) as usize;
        Some(self.game[k][j])
    }

    /// The current alive flag of `hex`, or `None` if `hex` lies outside the
    /// grid.
    pub fn get(&self, hex: &HexInt) -> (state: Option<bool>)
        requires
            self.wf(),
        ensures
            state == state_at(self@, hex@),
    {
        self.cell(hex.q as i64, hex.r as i64)
    }

    /// The number of the six neighbors of `hex` that lie in the grid and are
    /// alive; zero if `hex` itself lies outside the grid.
    pub fn get_num_neighbors(&self, hex: &HexInt) -> (num_neighbors: i32)
        requires
            self.wf(),
        ensures
            num_neighbors == live_neighbors(self@, hex@),
            0 <= num_neighbors <= 6,
    {
        if self.get(hex).is_some() {
            let mut num_neighbors: i32 = 0;
            let mut k: usize = 0;
            while k < 6
                invariant
                    self.wf(),
                    k <= 6,
                    0 <= num_neighbors <= k,
                    num_neighbors == live_among(self@, hex@, k as nat),
                decreases 6 - k,
            {
                proof {
                    lemma_neighbors_constant();
                }
                let offset = NEIGHBORS[k];
                let state = self.cell(
                    hex.q as i64 + offset.0 as i64,
                    hex.r as i64 + offset.1 as i64,
                );
                match state {
                    Some(true) => {
                        num_neighbors = num_neighbors + 1;
                    },
                    _ => {},
                }
                k = k + 1;
            }
            num_neighbors
        } else {
            0
        }
    }

    /// Advances the automaton by one generation. Every cell is recomputed
    /// from the generation before the call, then the two buffers trade
    /// places.
    pub fn update(&mut self)
        requires
            old(self).wf(),
        ensures
            final(self).wf(),
            final(self).radius() == old(self).radius(),
            final(self)@ == next_generation(old(self)@),
            final(self)@.dom() == old(self)@.dom(),
            forall|c: (int, int)|
                old(self)@.contains_key(c) ==> (#[trigger] final(self)@[c] <==> live_neighbors(
                    old(self)@,
                    c,
                ) == 2),
    {
        let bound: i64 = self.size as i64;
        let mut k: usize = 0;
        while k < self.game.len()
            invariant
                self.wf(),
                bound == self.size,
                self.size == old(self).size,
                self.game == old(self).game,
                k <= self.game@.len(),
                forall|a: int|
                    0 <= a < k ==> row_advanced(
                        (#[trigger] self.game_back@[a])@,
                        old(self)@,
                        bound as int,
                        a - bound,
                        self.game_back@[a]@.len() as int,
                    ),
            decreases self.game@.len() - k,
        {
            let q: i64 = k as i64 - bound;
            let lo: i64 = first_r(bound, q);
            let mut j: usize = 0;
            while j < self.game[k].len()
                invariant
                    self.wf(),
                    bound == self.size,
                    self.size == old(self).size,
                    self.game == old(self).game,
                    k < self.game@.len(),
                    q == k - bound,
                    lo == row_min(bound as int, q as int),
                    j <= self.game@[k as int]@.len(),
                    forall|a: int|
                        0 <= a < k ==> row_advanced(
                            (#[trigger] self.game_back@[a])@,
                            old(self)@,
                            bound as int,
                            a - bound,
                            self.game_back@[a]@.len() as int,
                        ),
                    row_advanced(
                        self.game_back@[k as int]@,
                        old(self)@,
                        bound as int,
                        q as int,
                        j as int,
                    ),
                decreases self.game@[k as int]@.len() - j,
            {
                let hex = HexInt::new(q as i32, (lo + j as i64) as i32);
                let alive = self.get_num_neighbors(&hex) == 2;
                self.game_back[k][j] = alive;
                j = j + 1;
            }
            k = k + 1;
        }
        std::mem::swap(&mut self.game, &mut self.game_back);
        proof {
            assert(self@.dom() =~= region(self.radius()));
            assert(self@ =~= next_generation(old(self)@));
            assert(self@.dom() =~= old(self)@.dom());
        }
    }

    /// All cells of the grid with their current alive flags, in row-major
    /// order: by ascending `q`, and by ascending `r` within a row.
    pub fn iter(&self) -> (cells: Vec<(HexInt, bool)>)
        requires
            self.wf(),
        ensures
            cells@.len() == cell_count(self.radius()),
            lists_grid(cells@, self@, self.radius()),
    {
        let bound: i64 = self.size as i64;
        let mut cells: Vec<(HexInt, bool)> = Vec::new();
        let mut k: usize = 0;
        proof {
            lemma_region_cells_len(bound as int);
            lemma_cells_before_len(bound as int, bound + 1);
        }
        while k < self.game.len()
            invariant
                self.wf(),
                bound == self.size,
                k <= self.game@.len(),
                cells@.len() == count_before(bound as int, k - bound),
                cells@.len() <= region_cells(bound as int).len(),
                lists_start(cells@, self@, bound as int),
            decreases self.game@.len() - k,
        {
            let q: i64 = k as i64 - bound;
            let lo: i64 = first_r(bound, q);
            let mut j: usize = 0;
            while j < self.game[k].len()
                invariant
                    self.wf(),
                    bound == self.size,
                    k < self.game@.len(),
                    q == k - bound,
                    lo == row_min(bound as int, q as int),
                    j <= self.game@[k as int]@.len(),
                    cells@.len() == count_before(bound as int, q as int) + j,
                    cells@.len() <= region_cells(bound as int).len(),
                    lists_start(cells@, self@, bound as int),
                decreases self.game@[k as int]@.len() - j,
            {
                proof {
                    lemma_cell_position(bound as int, q as int, j as int);
                }
                cells.push((HexInt::new(q as i32, (lo + j as i64) as i32), self.game[k][j]));
                j = j + 1;
            }
            k = k + 1;
        }
        cells
    }

    /// The number of cells of the grid.
    fn cell_total(&self) -> (total: u64)
        requires
            self.wf(),
        ensures
            total == cell_count(self.radius()),
    {
        let r: u64 = self.size as u64;
        assert(3 * r * r <= 3 * 0x7fff_ffff * 0x7fff_ffff) by (nonlinear_arith)
            requires
                0 <= r <= 0x7fff_ffff,
        ;
        3 * r * r + 3 * r + 1
    }

    /// Resets every cell from three draws of a random source: the cell at
    /// position `i` of the row-major order becomes alive exactly if all three
    /// booleans of `draws[i]` are true. Nothing changes unless `draws` holds
    /// one entry per cell; the result says whether it did.
    pub fn randomize_from(&mut self, draws: &Vec<(bool, bool, bool)>) -> (applied: bool)
        requires
            old(self).wf(),
        ensures
            final(self).wf(),
            final(self).radius() == old(self).radius(),
            final(self)@.dom() == old(self)@.dom(),
            applied == (draws@.len() == cell_count(old(self).radius())),
            applied ==> seeded_by(final(self)@, draws@, old(self).radius()),
            !applied ==> final(self)@ == old(self)@,
    {
        let total = self.cell_total();
        if draws.len() as u64 != total {
            return false;
        }
        let bound: i64 = self.size as i64;
        let mut i: usize = 0;
        let mut k: usize = 0;
        proof {
            lemma_region_cells_len(bound as int);
            lemma_cells_before_len(bound as int, bound + 1);
        }
        while k < self.game.len()
            invariant
                self.wf(),
                bound == self.size,
                self.size == old(self).size,
                draws@.len() == count_before(bound as int, bound + 1),
                k <= self.game@.len(),
                i == count_before(bound as int, k - bound),
                forall|a: int|
                    0 <= a < k ==> row_seeded(
                        (#[trigger] self.game@[a])@,
                        draws@,
                        count_before(bound as int, a - bound),
                        self.game@[a]@.len() as int,
                    ),
            decreases self.game@.len() - k,
        {
            let mut j: usize = 0;
            proof {
                lemma_count_before_monotonic(bound as int, k - bound + 1, bound + 1);
            }
            while j < self.game[k].len()
                invariant
                    self.wf(),
                    bound == self.size,
                    self.size == old(self).size,
                    draws@.len() == count_before(bound as int, bound + 1),
                    k < self.game@.len(),
                    count_before(bound as int, k - bound + 1) <= draws@.len(),
                    j <= self.game@[k as int]@.len(),
                    i == count_before(bound as int, k - bound) + j,
                    forall|a: int|
                        0 <= a < k ==> row_seeded(
                            (#[trigger] self.game@[a])@,
                            draws@,
                            count_before(bound as int, a - bound),
                            self.game@[a]@.len() as int,
                        ),
                    row_seeded(
                        self.game@[k as int]@,
                        draws@,
                        count_before(bound as int, k - bound),
                        j as int,
                    ),
                decreases self.game@[k as int]@.len() - j,
            {
                assert(count_before(bound as int, k - bound + 1) == count_before(
                    bound as int,
                    k - bound,
                ) + row_len(bound as int, k - bound));
                assert(i < draws.len());
                let draw = draws[i];
                self.game[k][j] = draw.0 && draw.1 && draw.2;
                i = i + 1;
                j = j + 1;
            }
            k = k + 1;
        }
        proof {
            assert(self@.dom() =~= region(self.radius()));
            let radius = bound as int;
            lemma_region_cells(radius);
            lemma_cells_before_members(radius, radius + 1);
            assert forall|n: int| 0 <= n < draws@.len() implies #[trigger] self@[region_cells(
                radius,
            )[n]] == all_three(draws@[n]) by {
                let c = region_cells(radius)[n];
                assert(region_cells(radius).contains(c));
                let b = c.1 - row_min(radius, c.0);
                lemma_cell_position(radius, c.0, b);
                assert(n == count_before(radius, c.0) + b);
            }
        }
        true
    }

    /// Resets every cell at random: each becomes alive exactly if three
    /// independent draws from the thread's generator all come up true, so
    /// with probability one in eight. The key set stays as it is.
    pub fn randomize(&mut self)
        requires
            old(self).wf(),
        ensures
            final(self).wf(),
            final(self).radius() == old(self).radius(),
            final(self)@.dom() == old(self)@.dom(),
    {
        let total = self.cell_total();
        let mut rng = rand::thread_rng();
        let mut draws: Vec<(bool, bool, bool)> = Vec::new();
        let mut i: u64 = 0;
        while i < total
            invariant
                i <= total,
                draws@.len() == i,
            decreases total - i,
        {
            let first = draw(&mut rng);
            let second = draw(&mut rng);
            let third = draw(&mut rng);
            draws.push((first, second, third));
            i = i + 1;
        }
        let applied = self.randomize_from(&draws);
        assert(applied);
    }
}

/// A traversal lists every key of the grid exactly once, each with its
/// alive flag, and nothing else.
pub proof fn lemma_traversal_covers(
    cells: Seq<(HexInt, bool)>,
    grid: Map<(int, int), bool>,
    radius: int,
)
    requires
        0 <= radius,
        grid.dom() == region(radius),
        lists_grid(cells, grid, radius),
    ensures
        cells.len() == cell_count(radius),
        forall|i: int, j: int| 0 <= i < j < cells.len() ==> cells[i].0 != cells[j].0,
        forall|i: int|
            0 <= i < cells.len() ==> grid.contains_key((#[trigger] cells[i]).0@)
                && grid[cells[i].0@] == cells[i].1,
        forall|c: (int, int)| #[trigger]
            grid.contains_key(c) ==> exists|i: int|
                0 <= i < cells.len() && (#[trigger] cells[i]).0@ == c && cells[i].1 == grid[c],
{
    lemma_region_cells(radius);
    lemma_cells_before_members(radius, radius + 1);
    let order = region_cells(radius);
    assert forall|i: int| 0 <= i < cells.len() implies grid.contains_key(
        (#[trigger] cells[i]).0@,
    ) && grid[cells[i].0@] == cells[i].1 by {
        assert(order.contains(order[i]));
        assert(region(radius).contains(order[i]));
    }
    assert forall|c: (int, int)| #[trigger] grid.contains_key(c) implies exists|i: int|
        0 <= i < cells.len() && (#[trigger] cells[i]).0@ == c && cells[i].1 == grid[c] by {
        assert(region(radius).contains(c));
        assert(order.contains(c));
        let i = choose|i: int| 0 <= i < order.len() && order[i] == c;
        assert(cells[i].0@ == c);
    }
}

/// Traversal is repeatable: two traversals of one generation yield the same
/// cells, hence the same multiset of coordinate and alive flag.
pub proof fn lemma_iter_restartable(
    first: Seq<(HexInt, bool)>,
    second: Seq<(HexInt, bool)>,
    grid: Map<(int, int), bool>,
    radius: int,
)
    requires
        lists_grid(first, grid, radius),
        lists_grid(second, grid, radius),
    ensures
        first == second,
        first.to_multiset() == second.to_multiset(),
{
    assert forall|i: int| 0 <= i < first.len() implies first[i] == second[i] by {
        assert(first[i].0@ == second[i].0@);
        assert(first[i].0 == second[i].0);
    }
    assert(first =~= second);
}

/// An update reads nothing but the current generation: two automata that
/// hold the same generation hold the same generation again after one update
/// each, whatever their scratch buffers held.
pub proof fn lemma_update_deterministic(
    before_a: HexGOL,
    after_a: HexGOL,
    before_b: HexGOL,
    after_b: HexGOL,
)
    requires
        before_a@ == before_b@,
        after_a@ == next_generation(before_a@),
        after_b@ == next_generation(before_b@),
    ensures
        after_a@ == after_b@,
{
}

} // verus!
