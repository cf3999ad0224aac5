use grid_plotter::contour::{
    canonical_order, crossing_point, edge_crossing, element_state, extract_isoline,
    make_binary_map, EdgeCrossing, RationalPoint, Segment, Threshold,
};
use grid_plotter::heat::heat_color;
use grid_plotter::levels::{contour_isolines, field_max, field_min, isoline_levels};

fn thr(v: i64) -> Threshold {
    Threshold::from_value(v)
}

#[test]
fn binary_map_splits_at_threshold() {
    let field = vec![-3, 5, 4, 10];
    assert_eq!(make_binary_map(&field, thr(5)), vec![0, 1, 0, 1]);
    // 9/2 = 4.5: 4 lies below, 5 above.
    assert_eq!(make_binary_map(&field, Threshold { num: 9, den: 2 }), vec![0, 1, 0, 1]);
    assert_eq!(make_binary_map(&field, Threshold { num: 7, den: 2 }), vec![0, 1, 1, 1]);
    assert!(make_binary_map(&vec![], thr(0)).is_empty());
}

#[test]
fn state_codes_weigh_third_node_most() {
    let bits: Vec<u8> = vec![1, 0, 0, 1];
    assert_eq!(element_state((0, 1, 2), &bits), 1);
    assert_eq!(element_state((1, 0, 2), &bits), 2);
    assert_eq!(element_state((1, 2, 0), &bits), 4);
    assert_eq!(element_state((0, 3, 0), &bits), 7);
    assert_eq!(element_state((1, 2, 1), &bits), 0);
}

#[test]
fn canonical_order_moves_odd_node_first() {
    let bits: Vec<u8> = vec![1, 0, 0, 1];
    // one bit set: the set node goes first
    assert_eq!(canonical_order((0, 1, 2), &bits), (0, 1, 2));
    assert_eq!(canonical_order((1, 0, 2), &bits), (0, 1, 2));
    assert_eq!(canonical_order((1, 2, 0), &bits), (0, 2, 1));
    // two bits set: the clear node goes first
    assert_eq!(canonical_order((0, 1, 3), &bits), (1, 0, 3));
    assert_eq!(canonical_order((0, 3, 2), &bits), (2, 3, 0));
    assert_eq!(canonical_order((1, 0, 3), &bits), (1, 0, 3));
    // no crossing: unchanged
    assert_eq!(canonical_order((1, 2, 1), &bits), (1, 2, 1));
    assert_eq!(canonical_order((0, 3, 0), &bits), (0, 3, 0));
}

#[test]
fn canonical_first_node_differs_from_others() {
    let bits: Vec<u8> = vec![1, 0, 0, 1, 1, 0];
    let nodes = [0usize, 1, 2, 3, 4, 5];
    for &a in &nodes {
        for &b in &nodes {
            for &c in &nodes {
                let s = element_state((a, b, c), &bits);
                if s == 0 || s == 7 {
                    continue;
                }
                let r = canonical_order((a, b, c), &bits);
                assert_ne!(bits[r.0], bits[r.1]);
                assert_ne!(bits[r.0], bits[r.2]);
            }
        }
    }
}

#[test]
fn edge_crossing_from_either_side() {
    let field = vec![0, 10, 20];
    assert_eq!(
        edge_crossing(&field, thr(5), 0, 1),
        EdgeCrossing { start: 0, end: 1, t_num: 5, t_den: 10 }
    );
    assert_eq!(
        edge_crossing(&field, thr(5), 2, 0),
        EdgeCrossing { start: 2, end: 0, t_num: 15, t_den: 20 }
    );
    assert_eq!(
        edge_crossing(&field, Threshold { num: 15, den: 2 }, 0, 1),
        EdgeCrossing { start: 0, end: 1, t_num: 15, t_den: 20 }
    );
}

#[test]
fn crossing_fractions_on_edges_of_low_node() {
    let field = vec![0, 10, 20];
    for tri in [(0, 1, 2), (1, 0, 2), (2, 1, 0)] {
        let segs = extract_isoline(&vec![tri], &field, thr(5));
        assert_eq!(segs.len(), 1);
        let s = segs[0];
        assert_eq!(s.first.start, 0);
        assert_eq!(s.second.start, 0);
        let mut ends = [s.first.end, s.second.end];
        ends.sort();
        assert_eq!(ends, [1, 2]);
        for c in [s.first, s.second] {
            let expected = if c.end == 1 { 0.5 } else { 0.25 };
            assert_eq!(c.t_num as f64 / c.t_den as f64, expected);
        }
    }
    let segs = extract_isoline(&vec![(0, 1, 2)], &field, thr(5));
    assert_eq!(segs[0].first, EdgeCrossing { start: 0, end: 1, t_num: 5, t_den: 10 });
    assert_eq!(segs[0].second, EdgeCrossing { start: 0, end: 2, t_num: 5, t_den: 20 });
}

#[test]
fn thresholds_outside_field_range_give_no_segments() {
    let field = vec![3, -2, 8, 5];
    let tris = vec![(0, 1, 2), (1, 2, 3), (3, 0, 1)];
    assert!(extract_isoline(&tris, &field, thr(-3)).is_empty());
    assert!(extract_isoline(&tris, &field, thr(9)).is_empty());
    assert!(extract_isoline(&tris, &field, Threshold { num: -5, den: 2 }).is_empty());
    assert!(extract_isoline(&tris, &field, Threshold { num: 17, den: 2 }).is_empty());
    for t in &tris {
        for v in [-3, 9] {
            let bits = make_binary_map(&field, thr(v));
            let s = element_state(*t, &bits);
            assert!(s == 0 || s == 7);
        }
    }
    // at the minimum every node lies at or above the threshold
    assert!(extract_isoline(&tris, &field, thr(-2)).is_empty());
}

#[test]
fn threshold_at_maximum_can_cross() {
    // Nodes at the maximum classify as at-or-above, the others as below.
    let segs = extract_isoline(&vec![(0, 1, 2)], &vec![0, 10, 10], thr(10));
    assert_eq!(segs.len(), 1);
    assert_eq!(segs[0].first, EdgeCrossing { start: 0, end: 1, t_num: 10, t_den: 10 });
}

#[test]
fn extraction_is_repeatable() {
    let field = vec![0, 7, 3, 12, 9];
    let tris = vec![(0, 1, 2), (1, 3, 2), (2, 3, 4), (4, 0, 2)];
    for v in -1..14 {
        let a = extract_isoline(&tris, &field, thr(v));
        let b = extract_isoline(&tris, &field, thr(v));
        assert_eq!(a, b);
    }
}

#[test]
fn end_to_end_single_triangle() {
    let points = vec![(0, 0), (1, 0), (1, 1)];
    let segs = extract_isoline(&vec![(0, 1, 2)], &vec![0, 10, 10], thr(5));
    assert_eq!(segs.len(), 1);
    let p1 = crossing_point(&points, segs[0].first);
    let p2 = crossing_point(&points, segs[0].second);
    assert_eq!(p1, RationalPoint { x_num: 5, y_num: 0, den: 10 });
    assert_eq!(p2, RationalPoint { x_num: 5, y_num: 5, den: 10 });
    assert_eq!((p1.x_num as f64 / p1.den as f64, p1.y_num as f64 / p1.den as f64), (0.5, 0.0));
    assert_eq!((p2.x_num as f64 / p2.den as f64, p2.y_num as f64 / p2.den as f64), (0.5, 0.5));
}

#[test]
fn crossing_point_interpolates_between_nodes() {
    let points = vec![(2, -4), (10, 4)];
    let c = EdgeCrossing { start: 1, end: 0, t_num: 1, t_den: 4 };
    // (10, 4) + 1/4 * ((2, -4) - (10, 4)) = (8, 2)
    assert_eq!(crossing_point(&points, c), RationalPoint { x_num: 32, y_num: 8, den: 4 });
    let at_end = EdgeCrossing { start: 0, end: 1, t_num: 3, t_den: 3 };
    assert_eq!(crossing_point(&points, at_end), RationalPoint { x_num: 30, y_num: 12, den: 3 });
}

#[test]
fn extreme_values_do_not_overflow() {
    let field = vec![i64::MIN, i64::MAX, i64::MAX];
    let t = Threshold { num: 0, den: u16::MAX };
    let segs = extract_isoline(&vec![(2, 1, 0)], &field, t);
    assert_eq!(segs.len(), 1);
    let c = segs[0].first;
    assert_eq!(c.start, 0);
    let span = (i64::MAX as i128 - i64::MIN as i128) * u16::MAX as i128;
    assert_eq!(c.t_den, span);
    let points = vec![(i32::MIN, i32::MAX), (i32::MAX, i32::MIN), (0, 0)];
    let p = crossing_point(&points, c);
    assert_eq!(p.den, span);
}

#[test]
fn levels_are_evenly_spaced() {
    let levels = isoline_levels(0, 10, 4);
    assert_eq!(levels.len(), 5);
    let nums: Vec<i128> = levels.iter().map(|l| l.num).collect();
    assert_eq!(nums, vec![0, 10, 20, 30, 40]);
    assert!(levels.iter().all(|l| l.den == 4));
    let neg = isoline_levels(-6, 3, 3);
    let nums: Vec<i128> = neg.iter().map(|l| l.num).collect();
    assert_eq!(nums, vec![-18, -9, 0, 9]);
    assert_eq!(isoline_levels(1, 5, 0), vec![Threshold { num: 1, den: 1 }]);
    let flat = isoline_levels(7, 7, 2);
    assert_eq!(flat, vec![Threshold { num: 14, den: 2 }; 3]);
}

#[test]
fn field_extremes() {
    let field = vec![4, -9, 12, 0, 12];
    assert_eq!(field_min(&field), -9);
    assert_eq!(field_max(&field), 12);
    assert_eq!(field_min(&vec![5]), 5);
    assert_eq!(field_max(&vec![5]), 5);
}

#[test]
fn isolines_for_every_level() {
    let field = vec![0, 10, 20, 10];
    let tris = vec![(0, 1, 2), (0, 2, 3)];
    let lines = contour_isolines(&tris, &field, 4);
    assert_eq!(lines.len(), 5);
    // level 0 is the minimum: node 0 is at it, nothing lies below
    assert!(lines[0].is_empty());
    // level 1 is 5: both triangles are crossed
    assert_eq!(lines[1].len(), 2);
    assert_eq!(lines[1], extract_isoline(&tris, &field, Threshold { num: 20, den: 4 }));
    // level 4 is the maximum: node 2 alone is at or above it
    assert_eq!(lines[4].len(), 2);
    let single: Vec<Vec<Segment>> = contour_isolines(&tris, &field, 0);
    assert_eq!(single.len(), 1);
    assert!(single[0].is_empty());
}

#[test]
fn heat_colors_scale_from_blue_to_red() {
    let field = vec![0, 10, 20, 30, -50, 90];
    // mean 10 on [0, 30]: one third of the way
    assert_eq!(heat_color(&field, (0, 1, 2), 0, 30), (85, 0, 170));
    // mean 0 and mean 30: the ends of the scale
    assert_eq!(heat_color(&field, (0, 0, 0), 0, 30), (0, 0, 255));
    assert_eq!(heat_color(&field, (3, 3, 3), 0, 30), (255, 0, 0));
    // means outside the range are clamped
    assert_eq!(heat_color(&field, (4, 4, 0), 0, 30), (0, 0, 255));
    assert_eq!(heat_color(&field, (5, 5, 3), 0, 30), (255, 0, 0));
    // an empty range puts everything at its low end
    assert_eq!(heat_color(&field, (0, 1, 2), 10, 10), (0, 0, 255));
}

#[test]
fn edge_crossing_at_either_end_value() {
    let field = vec![0, 10, 20];
    let points = vec![(3, 4), (7, -2), (0, 0)];
    // threshold at the smaller end value: t = 0, the point is that node
    let c = edge_crossing(&field, thr(0), 0, 1);
    assert_eq!(c, EdgeCrossing { start: 0, end: 1, t_num: 0, t_den: 10 });
    let p = crossing_point(&points, c);
    assert_eq!((p.x_num, p.y_num), (3 * p.den, 4 * p.den));
    // threshold at the larger end value, read from the larger end: t = 0
    let c = edge_crossing(&field, thr(10), 1, 0);
    assert_eq!(c, EdgeCrossing { start: 1, end: 0, t_num: 0, t_den: 10 });
    let p = crossing_point(&points, c);
    assert_eq!((p.x_num, p.y_num), (7 * p.den, -2 * p.den));
    // and from the smaller end: t = 1
    let c = edge_crossing(&field, thr(10), 0, 1);
    assert_eq!(c, EdgeCrossing { start: 0, end: 1, t_num: 10, t_den: 10 });
}

#[test]
fn edge_crossing_outside_the_edge_range() {
    let field = vec![0, 10, 20];
    // t = (25 - 0) / (10 - 0) = 2.5
    assert_eq!(
        edge_crossing(&field, thr(25), 0, 1),
        EdgeCrossing { start: 0, end: 1, t_num: 25, t_den: 10 }
    );
    // t = (-5 - 20) / (10 - 20) = 2.5, written with a positive denominator
    assert_eq!(
        edge_crossing(&field, thr(-5), 2, 1),
        EdgeCrossing { start: 2, end: 1, t_num: 25, t_den: 10 }
    );
}

#[test]
fn segments_lie_in_their_triangles() {
    let field = vec![0, 7, 3, 12, 9];
    let tris = vec![(0, 1, 2), (1, 3, 2), (2, 3, 4), (4, 0, 2)];
    for line in contour_isolines(&tris, &field, 6) {
        for s in &line {
            assert_eq!(s.first.start, s.second.start);
            let on = tris.iter().any(|t| {
                let has = |n: usize| n == t.0 || n == t.1 || n == t.2;
                has(s.first.start) && has(s.first.end) && has(s.second.end)
            });
            assert!(on);
            for c in [s.first, s.second] {
                assert!(c.t_den > 0 && 0 <= c.t_num && c.t_num <= c.t_den);
            }
        }
    }
}

#[test]
fn threshold_at_maximum_lands_on_maximum_nodes() {
    let field = vec![0, 10, 10, 3, 10];
    let points = vec![(0, 0), (4, 0), (4, 4), (0, 4), (8, 8)];
    // one node at the maximum: both crossings start there with t = 0
    let segs = extract_isoline(&vec![(0, 1, 3)], &field, thr(10));
    assert_eq!(segs.len(), 1);
    for c in [segs[0].first, segs[0].second] {
        assert_eq!((c.start, c.t_num), (1, 0));
        let p = crossing_point(&points, c);
        assert_eq!((p.x_num, p.y_num), (4 * p.den, 0));
    }
    // two nodes at the maximum: both crossings end there with t = 1
    let segs = extract_isoline(&vec![(1, 2, 3)], &field, thr(10));
    assert_eq!(segs.len(), 1);
    for c in [segs[0].first, segs[0].second] {
        assert_eq!(c.start, 3);
        assert_eq!(c.t_num, c.t_den);
        assert_eq!(field[c.end], 10);
    }
    // no triangle mixes the maximum with a lower value: nothing at the maximum
    assert!(extract_isoline(&vec![(1, 2, 4), (0, 3, 0)], &field, thr(10)).is_empty());
}
