//! The hexagonal region of a given radius around the origin, in axial
//! coordinates `(q, r)`, and its row-major enumeration.

use vstd::math::{abs, max, max3, min};
use vstd::prelude::*;

verus! {

/// Smallest `r` in the row of `q`: the larger of `-radius` and `-q - radius`.
pub open spec fn row_min(radius: int, q: int) -> int {
    max(-radius, -q - radius)
}

/// Largest `r` in the row of `q`: the smaller of `radius` and `-q + radius`.
pub open spec fn row_max(radius: int, q: int) -> int {
    min(radius, -q + radius)
}

/// Number of cells in the row of `q`.
pub open spec fn row_len(radius: int, q: int) -> int {
    row_max(radius, q) - row_min(radius, q) + 1
}

/// Whether `c` lies in the hexagonal region of the given radius.
pub open spec fn in_region(radius: int, c: (int, int)) -> bool {
    &&& -radius <= c.0 <= radius
    &&& row_min(radius, c.0) <= c.1 <= row_max(radius, c.0)
}

/// The key set of a grid of the given radius.
pub open spec fn region(radius: int) -> Set<(int, int)> {
    Set::new(|c: (int, int)| in_region(radius, c))
}

/// The centered hexagonal number `3 * radius^2 + 3 * radius + 1`.
pub open spec fn cell_count(radius: int) -> int {
    3 * radius * radius + 3 * radius + 1
}

/// Distance from the origin on the hexagonal lattice: the largest absolute
/// value among the three cube components `q`, `r` and `-q - r`.
pub open spec fn hex_distance(c: (int, int)) -> int {
    max3(abs(c.0) as int, abs(c.1) as int, abs(-c.0 - c.1) as int)
}

/// The region of radius `radius` holds exactly the cells within distance
/// `radius` of the origin.
pub proof fn lemma_region_is_disc(radius: int, c: (int, int))
    ensures
        in_region(radius, c) <==> hex_distance(c) <= radius,
{
}

/// The cells of the row of `q`, by ascending `r`.
pub open spec fn row_cells(radius: int, q: int) -> Seq<(int, int)> {
    Seq::new(row_len(radius, q) as nat, |j: int| (q, row_min(radius, q) + j))
}

/// The cells of all rows below `q`, row by row from `-radius` upwards.
pub open spec fn cells_before(radius: int, q: int) -> Seq<(int, int)>
    decreases q + radius,
{
    if q <= -radius {
        Seq::empty()
    } else {
        cells_before(radius, q - 1) + row_cells(radius, q - 1)
    }
}

/// All cells of the region in row-major order.
pub open spec fn region_cells(radius: int) -> Seq<(int, int)> {
    cells_before(radius, radius + 1)
}

/// Number of cells in the rows below `q`.
pub open spec fn count_before(radius: int, q: int) -> int
    decreases q + radius,
{
    if q <= -radius {
        0
    } else {
        count_before(radius, q - 1) + row_len(radius, q - 1)
    }
}

/// Every row of the region holds at least one cell.
pub proof fn lemma_row_len_positive(radius: int, q: int)
    requires
        -radius <= q <= radius,
    ensures
        1 <= row_len(radius, q) <= 2 * radius + 1,
{
}

/// `cells_before` has `count_before` entries.
pub proof fn lemma_cells_before_len(radius: int, q: int)
    requires
        0 <= radius,
        -radius <= q <= radius + 1,
    ensures
        cells_before(radius, q).len() == count_before(radius, q),
        0 <= count_before(radius, q),
    decreases q + radius,
{
    if q > -radius {
        lemma_cells_before_len(radius, q - 1);
        lemma_row_len_positive(radius, q - 1);
    }
}

/// Later rows start at later positions.
pub proof fn lemma_count_before_monotonic(radius: int, q: int, q2: int)
    requires
        0 <= radius,
        -radius <= q <= q2 <= radius + 1,
    ensures
        count_before(radius, q) <= count_before(radius, q2),
    decreases q2 - q,
{
    if q < q2 {
        lemma_count_before_monotonic(radius, q, q2 - 1);
        lemma_row_len_positive(radius, q2 - 1);
    }
}

/// Twice the number of cells in the first `k` rows, each one cell longer
/// than the row before it.
spec fn twice_rising(radius: int, k: int) -> int {
    2 * k * (radius + 1) + k * (k - 1)
}

/// Twice the number of cells in the first `m` rows above `q = 0`, each one
/// cell shorter than the row before it.
spec fn twice_falling(radius: int, m: int) -> int {
    2 * m * (2 * radius + 1) - m * (m + 1)
}

/// Closed form of `count_before`, doubled to stay within the integers.
proof fn lemma_count_before_closed(radius: int, q: int)
    requires
        0 <= radius,
        -radius <= q <= radius + 1,
    ensures
        q <= 1 ==> 2 * count_before(radius, q) == twice_rising(radius, q + radius),
        q >= 1 ==> 2 * count_before(radius, q) == twice_rising(radius, radius + 1) + twice_falling(
            radius,
            q - 1,
        ),
    decreases q + radius,
{
    if q <= -radius {
        assert(twice_rising(radius, 0) == 0);
    } else if q <= 1 {
        lemma_count_before_closed(radius, q - 1);
        let k = q + radius;
        assert(row_len(radius, q - 1) == radius + k);
        assert(twice_rising(radius, k - 1) + 2 * (radius + k) == twice_rising(radius, k))
            by (nonlinear_arith);
        assert(twice_falling(radius, 0) == 0);
    } else {
        lemma_count_before_closed(radius, q - 1);
        let m = q - 1;
        assert(row_len(radius, q - 1) == 2 * radius + 1 - m);
        assert(twice_falling(radius, m - 1) + 2 * (2 * radius + 1 - m) == twice_falling(radius, m))
            by (nonlinear_arith);
    }
}

/// The rows of the region hold `3 * radius^2 + 3 * radius + 1` cells in all.
pub proof fn lemma_region_cells_len(radius: int)
    requires
        0 <= radius,
    ensures
        region_cells(radius).len() == cell_count(radius),
{
    lemma_cells_before_len(radius, radius + 1);
    lemma_count_before_closed(radius, radius + 1);
    assert(twice_rising(radius, radius + 1) + twice_falling(radius, radius) == 2 * cell_count(
        radius,
    )) by (nonlinear_arith);
}

/// `cells_before` lists each cell of the rows below `q` exactly once.
pub proof fn lemma_cells_before_members(radius: int, q: int)
    requires
        0 <= radius,
        -radius <= q <= radius + 1,
    ensures
        forall|c: (int, int)| #[trigger]
            cells_before(radius, q).contains(c) <==> (in_region(radius, c) && c.0 < q),
        cells_before(radius, q).no_duplicates(),
    decreases q + radius,
{
    if q > -radius {
        lemma_cells_before_members(radius, q - 1);
        let below = cells_before(radius, q - 1);
        let row = row_cells(radius, q - 1);
        let all = cells_before(radius, q);
        lemma_row_len_positive(radius, q - 1);
        assert forall|c: (int, int)| #[trigger]
            all.contains(c) <==> (in_region(radius, c) && c.0 < q) by {
            if all.contains(c) {
                let i = choose|i: int| 0 <= i < all.len() && all[i] == c;
                if i < below.len() {
                    assert(below[i] == c);
                    assert(below.contains(c));
                } else {
                    assert(row[i - below.len()] == c);
                }
            }
            if in_region(radius, c) && c.0 < q {
                if c.0 < q - 1 {
                    assert(below.contains(c));
                    let i = choose|i: int| 0 <= i < below.len() && below[i] == c;
                    assert(all[i] == c);
                } else {
                    let j = c.1 - row_min(radius, q - 1);
                    assert(row[j] == c);
                    assert(all[below.len() + j] == c);
                }
            }
        }
        assert forall|i: int, j: int| 0 <= i < below.len() && 0 <= j < row.len() implies below[i]
            != row[j] by {
            assert(below.contains(below[i]));
        }
        vstd::seq_lib::lemma_no_dup_in_concat(below, row);
    }
}

/// The enumeration of the rows below `q` opens that of the rows below any
/// later `q2`.
pub proof fn lemma_cells_before_prefix(radius: int, q: int, q2: int)
    requires
        0 <= radius,
        -radius <= q <= q2 <= radius + 1,
    ensures
        cells_before(radius, q).len() <= cells_before(radius, q2).len(),
        forall|i: int|
            0 <= i < cells_before(radius, q).len() ==> cells_before(radius, q2)[i]
                == cells_before(radius, q)[i],
    decreases q2 - q,
{
    if q < q2 {
        lemma_cells_before_prefix(radius, q, q2 - 1);
    }
}

/// Where the cell `(q, row_min + j)` stands in the row-major enumeration.
pub proof fn lemma_cell_position(radius: int, q: int, j: int)
    requires
        0 <= radius,
        -radius <= q <= radius,
        0 <= j < row_len(radius, q),
    ensures
        0 <= count_before(radius, q) + j < region_cells(radius).len(),
        region_cells(radius)[count_before(radius, q) + j] == (q, row_min(radius, q) + j),
{
    lemma_cells_before_len(radius, q);
    lemma_cells_before_len(radius, q + 1);
    lemma_cells_before_prefix(radius, q + 1, radius + 1);
    assert(cells_before(radius, q + 1) == cells_before(radius, q) + row_cells(radius, q));
    assert(cells_before(radius, q + 1)[count_before(radius, q) + j] == row_cells(radius, q)[j]);
}

/// The row-major enumeration lists each cell of the region exactly once.
pub proof fn lemma_region_cells(radius: int)
    requires
        0 <= radius,
    ensures
        region_cells(radius).no_duplicates(),
        region_cells(radius).to_set() == region(radius),
        region_cells(radius).len() == cell_count(radius),
{
    lemma_cells_before_members(radius, radius + 1);
    lemma_region_cells_len(radius);
    assert forall|c: (int, int)|
        region_cells(radius).to_set().contains(c) <==> region(radius).contains(c) by {
        assert(region_cells(radius).to_set().contains(c) <==> region_cells(radius).contains(c));
    }
    assert(region_cells(radius).to_set() =~= region(radius));
}

/// A grid of radius `radius` has `3 * radius^2 + 3 * radius + 1` cells.
pub proof fn lemma_region_count(radius: int)
    requires
        0 <= radius,
    ensures
        region(radius).finite(),
        region(radius).len() == cell_count(radius),
{
    lemma_region_cells(radius);
    region_cells(radius).unique_seq_to_set();
    vstd::seq_lib::seq_to_set_is_finite(region_cells(radius));
}

} // verus!
