use hexgol::hex::{HexAxis, HexInt};
use hexgol::rule::NEIGHBORS;
use std::collections::HashSet;

#[test]
fn new_keeps_components() {
    let h = HexInt::new(2, -5);
    assert_eq!(h.q(), 2);
    assert_eq!(h.r(), -5);
    assert_eq!(h.q, 2);
    assert_eq!(h.r, -5);
}

#[test]
fn third_component_is_derived() {
    assert_eq!(HexInt::new(2, -5).s(), 3);
    assert_eq!(HexInt::new(0, 0).s(), 0);
    assert_eq!(HexInt::new(-7, -9).s(), 16);
    assert_eq!(HexInt::new(i32::MAX, 0).s(), -i32::MAX);
}

#[test]
fn cube_components_sum_to_zero() {
    for q in -6..=6 {
        for r in -6..=6 {
            let h = HexInt::new(q, r);
            assert_eq!(h.q() + h.r() + h.s(), 0);
        }
    }
}

#[test]
fn add_is_component_wise() {
    let sum = HexInt::new(1, 2) + HexInt::new(3, -7);
    assert_eq!(sum, HexInt::new(4, -5));
    assert_eq!(sum.s(), HexInt::new(1, 2).s() + HexInt::new(3, -7).s());
    assert_eq!(sum.q() + sum.r() + sum.s(), 0);
    assert_eq!(HexInt::new(5, 5) + HexInt::new(0, 0), HexInt::new(5, 5));
}

#[test]
fn equality_and_hash_are_structural() {
    assert_eq!(HexInt::new(1, 2), HexInt::new(1, 2));
    assert_ne!(HexInt::new(1, 2), HexInt::new(2, 1));
    assert_ne!(HexInt::new(1, 2), HexInt::new(1, 3));
    let mut seen = HashSet::new();
    assert!(seen.insert(HexInt::new(1, 2)));
    assert!(!seen.insert(HexInt::new(1, 2)));
    assert!(seen.insert(HexInt::new(2, 1)));
    assert_eq!(seen.len(), 2);
}

#[test]
fn absorbing_axis_follows_tie_break_order() {
    assert_eq!(HexAxis::absorbing(true, true, true), HexAxis::Q);
    assert_eq!(HexAxis::absorbing(true, true, false), HexAxis::Q);
    assert_eq!(HexAxis::absorbing(true, false, true), HexAxis::R);
    assert_eq!(HexAxis::absorbing(false, true, true), HexAxis::R);
    assert_eq!(HexAxis::absorbing(false, false, true), HexAxis::R);
    assert_eq!(HexAxis::absorbing(true, false, false), HexAxis::S);
    assert_eq!(HexAxis::absorbing(false, true, false), HexAxis::S);
    assert_eq!(HexAxis::absorbing(false, false, false), HexAxis::S);
}

#[test]
fn repair_recomputes_the_chosen_axis() {
    assert_eq!(HexInt::from_rounded(1, 2, 3, HexAxis::Q), HexInt::new(-5, 2));
    assert_eq!(HexInt::from_rounded(1, 2, 3, HexAxis::R), HexInt::new(1, -4));
    assert_eq!(HexInt::from_rounded(1, 2, 99, HexAxis::S), HexInt::new(1, 2));
    assert_eq!(HexInt::from_rounded(0, 0, -1, HexAxis::R), HexInt::new(0, 1));
}

#[test]
fn repaired_position_matches_rounded_s() {
    let h = HexInt::from_rounded(4, -2, -1, HexAxis::Q);
    assert_eq!(h.s(), -1);
    let h = HexInt::from_rounded(4, -2, -1, HexAxis::R);
    assert_eq!(h.s(), -1);
}

#[test]
fn repair_saturates_at_the_integer_bounds() {
    assert_eq!(
        HexInt::from_rounded(0, i32::MIN, i32::MIN, HexAxis::Q),
        HexInt::new(i32::MAX, i32::MIN)
    );
    assert_eq!(
        HexInt::from_rounded(i32::MAX, 0, i32::MAX, HexAxis::R),
        HexInt::new(i32::MAX, i32::MIN)
    );
    assert_eq!(
        HexInt::from_rounded(i32::MIN, 0, 0, HexAxis::R),
        HexInt::new(i32::MIN, i32::MAX)
    );
}

#[test]
fn repair_is_exact_on_lattice_points() {
    for q in -4..=4 {
        for r in -4..=4 {
            let h = HexInt::new(q, r);
            for axis in [HexAxis::Q, HexAxis::R, HexAxis::S] {
                assert_eq!(HexInt::from_rounded(h.q(), h.r(), h.s(), axis), h);
            }
        }
    }
}

#[test]
fn neighbor_offsets_are_the_six_axial_directions() {
    assert_eq!(
        NEIGHBORS,
        [(1, 0), (0, 1), (-1, 0), (0, -1), (1, -1), (-1, 1)]
    );
}

#[test]
fn neighbor_offsets_are_closed_under_negation() {
    for (dq, dr) in NEIGHBORS {
        assert!(NEIGHBORS.contains(&(-dq, -dr)));
    }
}

#[test]
fn neighbor_relation_is_symmetric() {
    let b = HexInt::new(3, -2);
    for (dq, dr) in NEIGHBORS {
        let a = b + HexInt::new(dq, dr);
        assert_eq!(a + HexInt::new(-dq, -dr), b);
    }
}

/// Rounds each cube component of the fractional position `(q, r)` by itself
/// and lets the library repair the axis that deviates most.
fn round_fractional(q: f32, r: f32) -> HexInt {
    let s = -q - r;
    let (rq, rr, rs) = (q.round(), r.round(), s.round());
    let (dq, dr, ds) = ((rq - q).abs(), (rr - r).abs(), (rs - s).abs());
    let axis = HexAxis::absorbing(dq > dr, dq > ds, dr > ds);
    HexInt::from_rounded(rq as i32, rr as i32, rs as i32, axis)
}

#[test]
fn rounding_a_lattice_point_gives_it_back() {
    for q in -20..=20 {
        for r in -20..=20 {
            assert_eq!(round_fractional(q as f32, r as f32), HexInt::new(q, r));
        }
    }
    assert_eq!(round_fractional(-4096.0, 1234.0), HexInt::new(-4096, 1234));
}

#[test]
fn rounding_repairs_q_when_it_deviates_most() {
    assert_eq!(round_fractional(0.45, 0.3), HexInt::new(1, 0));
    assert_eq!(round_fractional(-1.5, 0.25), HexInt::new(-1, 0));
}

#[test]
fn rounding_repairs_r_when_it_deviates_most() {
    assert_eq!(round_fractional(0.3, 0.45), HexInt::new(0, 1));
    assert_eq!(round_fractional(2.2, -1.5), HexInt::new(2, -1));
}

#[test]
fn rounding_keeps_q_and_r_when_s_deviates_most() {
    assert_eq!(round_fractional(0.25, 0.25), HexInt::new(0, 0));
    assert_eq!(round_fractional(1.3, 2.3), HexInt::new(1, 2));
}

#[test]
fn rounding_ties_fall_to_the_later_axis() {
    assert_eq!(round_fractional(0.5, 0.5), HexInt::new(1, 0));
    assert_eq!(round_fractional(0.5, 0.0), HexInt::new(1, 0));
    assert_eq!(round_fractional(0.0, 0.5), HexInt::new(0, 1));
}

#[test]
fn rounded_position_is_nearest_cell_center() {
    for (q, r, expected) in [
        (0.9f32, 0.05f32, (1, 0)),
        (0.1, 0.1, (0, 0)),
        (-0.9, 0.95, (-1, 1)),
        (2.7, -1.3, (3, -1)),
        (-3.4, -0.7, (-3, -1)),
    ] {
        assert_eq!(round_fractional(q, r), HexInt::new(expected.0, expected.1));
    }
}
