//! Axial coordinates on a hexagonal lattice.

use vstd::prelude::*;
use vstd::std_specs::ops::AddSpec;

verus! {

/// An exact lattice position in axial coordinates. The third cube component
/// is derived as `s = -q - r`, so the three always sum to zero.
#[derive(Copy, Clone, Debug, PartialEq, Eq, Hash, Structural)]
pub struct HexInt {
    pub q: i32,
    pub r: i32,
}

impl View for HexInt {
    type V = (int, int);

    /// The position as a pair of mathematical integers `(q, r)`.
    open spec fn view(&self) -> (int, int) {
        (self.q as int, self.r as int)
    }
}

/// One of the three cube axes.
#[derive(Copy, Clone, Debug, PartialEq, Eq, Structural)]
pub enum HexAxis {
    Q,
    R,
    S,
}

/// The axis that takes up the rounding error, from the comparisons of the
/// three deviations: `q` if it deviates strictly more than both others,
/// else `r` if it deviates strictly more than `s`, else `s`.
pub open spec fn absorbing_axis(q_over_r: bool, q_over_s: bool, r_over_s: bool) -> HexAxis {
    if q_over_r && q_over_s {
        HexAxis::Q
    } else if r_over_s {
        HexAxis::R
    } else {
        HexAxis::S
    }
}

/// The value of `x` held to the range of `i32`.
pub open spec fn saturated(x: int) -> int {
    if x < i32::MIN {
        i32::MIN as int
    } else if x > i32::MAX {
        i32::MAX as int
    } else {
        x
    }
}

/// The axial position that three separately rounded cube components stand
/// for, once the component on `axis` is recomputed from the other two.
pub open spec fn repaired(q: int, r: int, s: int, axis: HexAxis) -> (int, int) {
    match axis {
        HexAxis::Q => (saturated(-r - s), r),
        HexAxis::R => (q, saturated(-q - s)),
        HexAxis::S => (q, r),
    }
}

impl HexAxis {
    /// Picks the axis whose component is recomputed after rounding. The
    /// arguments say whether the deviation of `q` exceeds that of `r`, that
    /// of `q` exceeds that of `s`, and that of `r` exceeds that of `s`.
    pub fn absorbing(q_over_r: bool, q_over_s: bool, r_over_s: bool) -> (axis: HexAxis)
        ensures
            axis == absorbing_axis(q_over_r, q_over_s, r_over_s),
    {
        if q_over_r && q_over_s {
            HexAxis::Q
        } else if r_over_s {
            HexAxis::R
        } else {
            HexAxis::S
        }
    }
}

impl HexInt {
    /// The position with the given axial components.
    pub fn new(q: i32, r: i32) -> (h: Self)
        ensures
            h.q == q,
            h.r == r,
    {
        Self { q, r }
    }

    /// The first axial component.
    pub fn q(&self) -> (q: i32)
        ensures
            q == self.q,
    {
        self.q
    }

    /// The second axial component.
    pub fn r(&self) -> (r: i32)
        ensures
            r == self.r,
    {
        self.r
    }

    /// The derived third cube component as a mathematical integer.
    pub open spec fn cube_s(&self) -> int {
        -self.q - self.r
    }

    /// The derived third cube component `-q - r`.
    pub fn s(&self) -> (s: i32)
        requires
            i32::MIN <= self.cube_s() <= i32::MAX,
        ensures
            s == self.cube_s(),
            self.q + self.r + s == 0,
    {
        let s: i64 = -(self.q as i64) - (self.r as i64);
        s as i32
    }

    /// The lattice position for three cube components that were rounded one
    /// by one, with the component on `axis` recomputed from the other two so
    /// that the three sum to zero again. A recomputed component saturates at
    /// the bounds of `i32`.
    pub fn from_rounded(q: i32, r: i32, s: i32, axis: HexAxis) -> (h: Self)
        ensures
            h@ == repaired(q as int, r as int, s as int, axis),
    {
        match axis {
            HexAxis::Q => Self { q: saturate(-(r as i64) - (s as i64)), r },
            HexAxis::R => Self { q, r: saturate(-(q as i64) - (s as i64)) },
            HexAxis::S => Self { q, r },
        }
    }
}

/// Holds `x` to the range of `i32`.
fn saturate(x: i64) -> (y: i32)
    ensures
        y == saturated(x as int),
{
    if x < i32::MIN as i64 {
        i32::MIN
    } else if x > i32::MAX as i64 {
        i32::MAX
    } else {
        x as i32
    }
}

impl core::ops::Add for HexInt {
    type Output = HexInt;

    /// The component-wise sum.
    fn add(self, rhs: HexInt) -> (sum: HexInt) {
        HexInt { q: self.q + rhs.q, r: self.r + rhs.r }
    }
}

impl vstd::std_specs::ops::AddSpecImpl for HexInt {
    open spec fn obeys_add_spec() -> bool {
        true
    }

    /// Both component sums fit in `i32`.
    open spec fn add_req(self, rhs: HexInt) -> bool {
        &&& i32::MIN <= self.q + rhs.q <= i32::MAX
        &&& i32::MIN <= self.r + rhs.r <= i32::MAX
    }

    open spec fn add_spec(self, rhs: HexInt) -> HexInt {
        HexInt { q: (self.q + rhs.q) as i32, r: (self.r + rhs.r) as i32 }
    }
}

/// The cube constraint: the two stored components and the derived third sum
/// to zero for every position.
pub proof fn lemma_cube_constraint(h: HexInt)
    ensures
        h@.0 + h@.1 + h.cube_s() == 0,
{
}

/// Addition is component-wise on all three cube components, so a sum
/// satisfies the cube constraint with the sum of the derived components.
pub proof fn lemma_add_cube(a: HexInt, b: HexInt)
    requires
        a.add_req(b),
    ensures
        a.add_spec(b)@ == (a@.0 + b@.0, a@.1 + b@.1),
        a.add_spec(b).cube_s() == a.cube_s() + b.cube_s(),
        a.add_spec(b)@.0 + a.add_spec(b)@.1 + a.add_spec(b).cube_s() == 0,
{
}

/// Rounding is exact on lattice points: components that already sum to zero
/// are left as they are, whichever axis is picked for the repair.
pub proof fn lemma_repair_exact(h: HexInt, axis: HexAxis)
    ensures
        repaired(h@.0, h@.1, h.cube_s(), axis) == h@,
{
}

/// After a repair on `q` or `r` that did not saturate, the recomputed
/// position and the rounded `s` sum to zero; a repair on `s` keeps `q` and
/// `r` and drops the rounded `s`.
pub proof fn lemma_repair_restores_constraint(q: int, r: int, s: int, axis: HexAxis)
    requires
        axis == HexAxis::Q ==> i32::MIN <= -r - s <= i32::MAX,
        axis == HexAxis::R ==> i32::MIN <= -q - s <= i32::MAX,
    ensures
        axis != HexAxis::S ==> repaired(q, r, s, axis).0 + repaired(q, r, s, axis).1 + s == 0,
        axis == HexAxis::S ==> repaired(q, r, s, axis) == (q, r),
{
}

} // verus!
