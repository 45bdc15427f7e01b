//! The piecewise linear function engine (values in fixed-point units of
//! 1/100000).

use assessment::fuzzy::membership::piecewise::LinearFunction;
use assessment::fuzzy::membership::piecewise::PiecewiseLinearFunction;
use assessment::fuzzy::membership::piecewise::PiecewiseLinearFunctionError;

#[test]
fn add_single_piece_renders() {
    let mut plf = PiecewiseLinearFunction::new();
    assert!(plf.add(0, 100000, LinearFunction::new(300000, 270000)).is_ok());
    assert_eq!(plf.render(), "([0.00, 1.00] => y = 3.00\u{b7}x + 2.70)");
}

#[test]
fn add_disjoint_pieces_render() {
    let mut plf = PiecewiseLinearFunction::new();
    plf.add(0, 20000, LinearFunction::new(300000, 270000)).unwrap();
    plf.add(30000, 40000, LinearFunction::new(270000, 380000)).unwrap();
    assert_eq!(
        plf.render(),
        "([0.00, 0.20] => y = 3.00\u{b7}x + 2.70); ([0.30, 0.40] => y = 2.70\u{b7}x + 3.80)"
    );
}

#[test]
fn add_overlapping_pieces_sum() {
    let mut plf = PiecewiseLinearFunction::new();
    plf.add(0, 20000, LinearFunction::new(130000, 230000)).unwrap();
    plf.add(10000, 40000, LinearFunction::new(240000, 330000)).unwrap();
    assert_eq!(
        plf.render(),
        "([0.00, 0.10] => y = 1.30\u{b7}x + 2.30); ([0.10, 0.20] => y = 3.70\u{b7}x + 5.60); ([0.20, 0.40] => y = 2.40\u{b7}x + 3.30)"
    );
}

#[test]
fn scenario_four_insertions_render_exactly() {
    let mut plf = PiecewiseLinearFunction::new();
    plf.add(0, 20000, LinearFunction::new(130000, 230000)).unwrap();
    plf.add(10000, 40000, LinearFunction::new(240000, 330000)).unwrap();
    plf.add(-50000, 50000, LinearFunction::new(100000, 200000)).unwrap();
    plf.add(-10000, 15000, LinearFunction::new(100000, 200000)).unwrap();
    assert_eq!(
        plf.render(),
        "([-0.50, -0.10] => y = 1.00\u{b7}x + 2.00); ([-0.10, 0.00] => y = 2.00\u{b7}x + 4.00); ([0.00, 0.10] => y = 3.30\u{b7}x + 6.30); ([0.10, 0.15] => y = 5.70\u{b7}x + 9.60); ([0.15, 0.20] => y = 4.70\u{b7}x + 7.60); ([0.20, 0.40] => y = 3.40\u{b7}x + 5.30); ([0.40, 0.50] => y = 1.00\u{b7}x + 2.00)"
    );
}

#[test]
fn add_rejects_inverted_range() {
    let mut plf = PiecewiseLinearFunction::new();
    let piece = LinearFunction::new(300000, 270000);
    assert_eq!(
        plf.add(100000, 0, piece),
        Err(PiecewiseLinearFunctionError::InvalidPieceRange { inf: 100000, sup: 0 })
    );
    assert_eq!(plf.render(), "");
}

#[test]
fn superposition_over_identical_range() {
    let mut plf = PiecewiseLinearFunction::new();
    plf.add(0, 100000, LinearFunction::new(130000, 230000)).unwrap();
    plf.add(0, 100000, LinearFunction::new(240000, 330000)).unwrap();
    assert_eq!(plf.pieces().len(), 1);
    assert_eq!(plf.render(), "([0.00, 1.00] => y = 3.70\u{b7}x + 5.60)");
}

#[test]
fn merge_is_commutative_on_samples() {
    let mut a = PiecewiseLinearFunction::new();
    a.add(0, 20000, LinearFunction::new(130000, 230000)).unwrap();
    a.add(-50000, 50000, LinearFunction::new(100000, 200000)).unwrap();
    let mut b = PiecewiseLinearFunction::new();
    b.add(10000, 40000, LinearFunction::new(240000, 330000)).unwrap();
    b.add(-10000, 15000, LinearFunction::new(100000, 200000)).unwrap();
    assert!(a.merge(&b) == b.merge(&a));
    assert_eq!(
        a.merge(&b).render(),
        "([-0.50, -0.10] => y = 1.00\u{b7}x + 2.00); ([-0.10, 0.00] => y = 2.00\u{b7}x + 4.00); ([0.00, 0.10] => y = 3.30\u{b7}x + 6.30); ([0.10, 0.15] => y = 5.70\u{b7}x + 9.60); ([0.15, 0.20] => y = 4.70\u{b7}x + 7.60); ([0.20, 0.40] => y = 3.40\u{b7}x + 5.30); ([0.40, 0.50] => y = 1.00\u{b7}x + 2.00)"
    );
}

#[test]
fn merge_with_empty_is_commutative() {
    let a = PiecewiseLinearFunction::new();
    let mut b = PiecewiseLinearFunction::new();
    b.add(30000, 40000, LinearFunction::new(270000, 380000)).unwrap();
    assert!(a.merge(&b) == b.merge(&a));
    assert_eq!(a.merge(&b).render(), "([0.30, 0.40] => y = 2.70\u{b7}x + 3.80)");
    let e = PiecewiseLinearFunction::new();
    assert!(a.merge(&e) == e.merge(&a));
    assert_eq!(a.merge(&e).render(), "");
}

#[test]
fn simplify_is_idempotent() {
    let mut plf = PiecewiseLinearFunction::new();
    plf.add(0, 20000, LinearFunction::new(300000, 270000)).unwrap();
    plf.add(20000, 40000, LinearFunction::new(300000, 270000)).unwrap();
    plf.add(50000, 60000, LinearFunction::new(100000, 0)).unwrap();
    let once = plf.render();
    plf.simplify();
    assert_eq!(plf.render(), once);
    plf.simplify();
    assert_eq!(plf.render(), once);
}

#[test]
fn adjacent_equal_pieces_coalesce() {
    let f = LinearFunction::new(300000, 270000);
    let mut plf = PiecewiseLinearFunction::new();
    plf.add(0, 20000, f).unwrap();
    plf.add(30000, 40000, f).unwrap();
    assert_eq!(plf.pieces().len(), 2);
    plf.add(22500, 27500, f).unwrap();
    assert_eq!(plf.pieces().len(), 3);
    plf.add(27500, 30000, f).unwrap();
    assert_eq!(plf.pieces().len(), 2);
    plf.add(20000, 22500, f).unwrap();
    assert_eq!(plf.pieces().len(), 1);
}

#[test]
fn nearly_equal_pieces_coalesce_at_three_decimals() {
    // the functions differ by two fixed-point units: equal at three
    // decimals, so the adjacent pieces merge
    let mut plf = PiecewiseLinearFunction::new();
    plf.add(0, 20000, LinearFunction::new(300000, 270000)).unwrap();
    plf.add(20000, 40000, LinearFunction::new(300002, 270002)).unwrap();
    assert_eq!(plf.pieces().len(), 1);
    // a difference of a full thousandth keeps them apart
    let mut other = PiecewiseLinearFunction::new();
    other.add(0, 20000, LinearFunction::new(300000, 270000)).unwrap();
    other.add(20000, 40000, LinearFunction::new(300000, 270100)).unwrap();
    assert_eq!(other.pieces().len(), 2);
}

#[test]
fn pieces_reports_sorted_ranges() {
    let mut plf = PiecewiseLinearFunction::new();
    plf.add(30000, 40000, LinearFunction::new(100000, 0)).unwrap();
    plf.add(0, 20000, LinearFunction::new(300000, 270000)).unwrap();
    let keys: Vec<(i64, i64)> = plf.pieces().iter().map(|q| (q.inf(), q.sup())).collect();
    assert_eq!(keys, vec![(0, 20000), (30000, 40000)]);
}

#[test]
fn point_piece_welds_with_matching_function() {
    // a piece spanning a single point merges with any piece carrying an
    // approximately equal function, wherever that piece lies: the
    // adjacency rule compares the point piece's own bounds
    let f = LinearFunction::new(100000, 0);
    let mut plf = PiecewiseLinearFunction::new();
    plf.add(10000, 10000, f).unwrap();
    plf.add(50000, 60000, f).unwrap();
    let keys: Vec<(i64, i64)> = plf.pieces().iter().map(|q| (q.inf(), q.sup())).collect();
    assert_eq!(keys, vec![(10000, 60000)]);
}

#[test]
fn negative_coefficients_compare_equal_at_tolerance() {
    // the three-decimal comparison clamps negative quantized steps to
    // zero, so any two negative intercepts count as equal and the
    // adjacent pieces merge, keeping the later piece's function
    let mut plf = PiecewiseLinearFunction::new();
    plf.add(0, 10000, LinearFunction::new(2, -100000)).unwrap();
    plf.add(10000, 20000, LinearFunction::new(2, -300000)).unwrap();
    assert_eq!(plf.render(), "([0.00, 0.20] => y = 0.00\u{b7}x - 3.00)");
}

#[test]
fn value_at_evaluates_pieces() {
    let mut plf = PiecewiseLinearFunction::new();
    plf.add(0, 20000, LinearFunction::new(300000, 270000)).unwrap();
    // y = 3 * 0.1 + 2.7 = 3.0
    assert_eq!(plf.value_at(10000), Some(300000));
    assert_eq!(plf.value_at(0), Some(270000));
    assert_eq!(plf.value_at(30000), None);
}
