//! Trapezoidal membership functions (values in fixed-point units of
//! 1/100000).

use assessment::fuzzy::membership::Trapezoidal;
use assessment::fuzzy::membership::TrapezoidalError;

#[test]
fn new_accepts_three_and_four_points() {
    let four = Trapezoidal::new(vec![0, 10000, 20000, 30000]).unwrap();
    assert_eq!(four.center(), (10000, 20000));
    assert_eq!(four.coverage(), (0, 30000));
    assert!(!four.is_triangular());

    let flat = Trapezoidal::new(vec![0, 10000, 10000, 20000]).unwrap();
    assert_eq!(flat.center(), (10000, 10000));
    assert!(flat.is_triangular());

    let three = Trapezoidal::new(vec![0, 10000, 20000]).unwrap();
    assert_eq!(three.center(), (10000, 10000));
    assert_eq!(three.coverage(), (0, 20000));
    assert!(three.is_triangular());
}

#[test]
fn new_rejects_bad_point_counts() {
    assert_eq!(
        Trapezoidal::new(vec![0, 10000]),
        Err(TrapezoidalError::NotEnoughValues { limits: vec![0, 10000] })
    );
    assert_eq!(
        Trapezoidal::new(vec![0, 10000, 20000, 30000, 40000]),
        Err(TrapezoidalError::TooManyValues { limits: vec![0, 10000, 20000, 30000, 40000] })
    );
}

#[test]
fn new_rejects_unordered_points() {
    assert_eq!(
        Trapezoidal::new(vec![100000, 10000, 20000, 30000]),
        Err(TrapezoidalError::UnorderedValues { limits: vec![100000, 10000, 20000, 30000] })
    );
}

#[test]
fn membership_value_table() {
    let t = Trapezoidal::new(vec![0, 10000, 20000, 50000]).unwrap();
    let cases: Vec<(i64, i64)> = vec![
        (-10000, 0),
        (0, 0),
        (5000, 50000),
        (10000, 100000),
        (15000, 100000),
        (20000, 100000),
        (25000, 83333),
        (50000, 0),
        (60000, 0),
    ];
    for (x, expected) in cases {
        assert_eq!(t.membership_value(x), expected);
    }
}

#[test]
fn max_min_table() {
    let t = Trapezoidal::new(vec![0, 10000, 20000, 50000]).unwrap();
    let cases: Vec<(i64, i64, i64)> = vec![
        (0, 0, 0),
        (0, 50000, 100000),
        (30000, 80000, 66667),
        (40000, 40000, 33333),
    ];
    for (min, max, expected) in cases {
        assert_eq!(t.max_min(min, max), expected);
    }
}

#[test]
fn centroid_table() {
    let four = Trapezoidal::new(vec![0, 10000, 20000, 30000]).unwrap();
    assert_eq!(four.centroid(), 15000);
    let flat = Trapezoidal::new(vec![0, 10000, 10000, 20000]).unwrap();
    assert_eq!(flat.centroid(), 10000);
    let three = Trapezoidal::new(vec![0, 10000, 20000]).unwrap();
    assert_eq!(three.centroid(), 10000);
    let point = Trapezoidal::new(vec![50000, 50000, 50000]).unwrap();
    assert_eq!(point.centroid(), 50000);
}

#[test]
fn is_symmetrical_table() {
    let cases: Vec<(Vec<i64>, bool)> = vec![
        (vec![0, 10000, 20000, 30000], true),
        (vec![0, 10000, 10000, 20000], true),
        (vec![0, 10000, 20000], true),
        (vec![0, 0, 10000], false),
        (vec![0, 10000, 20000, 50000], false),
    ];
    for (limits, expected) in cases {
        assert_eq!(Trapezoidal::new(limits).unwrap().is_symmetrical(), expected);
    }
}

#[test]
fn is_symmetrical_respect_center_table() {
    let cases: Vec<(Vec<i64>, Vec<i64>, i64, bool)> = vec![
        (vec![0, 10000, 20000, 30000], vec![10000, 20000, 30000, 40000], 50000, false),
        (vec![0, 10000, 20000, 30000], vec![70000, 80000, 90000, 100000], 50000, true),
        (vec![0, 10000, 20000, 30000], vec![70000, 80000, 90000, 100000], 40000, false),
        (vec![0, 10000, 20000, 30000], vec![50000, 60000, 70000, 80000], 40000, true),
        (vec![0, 10000, 20000], vec![80000, 90000, 100000], 50000, true),
        (vec![0, 0, 10000], vec![90000, 100000, 100000], 50000, true),
        (vec![0, 50000, 100000], vec![0, 50000, 100000], 50000, true),
    ];
    for (t, o, center, expected) in cases {
        let t = Trapezoidal::new(t).unwrap();
        let o = Trapezoidal::new(o).unwrap();
        assert_eq!(t.is_symmetrical_respect_center(&o, center), expected);
    }
}

#[test]
fn to_piecewise_renders() {
    let four = Trapezoidal::new(vec![0, 10000, 20000, 30000]).unwrap();
    assert_eq!(
        four.to_piecewise().render(),
        "([0.00, 0.10] => y = 10.00\u{b7}x + 0.00); ([0.10, 0.20] => y = 0.00\u{b7}x + 1.00); ([0.20, 0.30] => y = -10.00\u{b7}x + 3.00)"
    );
    let flat = Trapezoidal::new(vec![0, 10000, 10000, 20000]).unwrap();
    assert_eq!(
        flat.to_piecewise().render(),
        "([0.00, 0.10] => y = 10.00\u{b7}x + 0.00); ([0.10, 0.20] => y = -10.00\u{b7}x + 2.00)"
    );
    let three = Trapezoidal::new(vec![0, 10000, 20000]).unwrap();
    assert_eq!(
        three.to_piecewise().render(),
        "([0.00, 0.10] => y = 10.00\u{b7}x + 0.00); ([0.10, 0.20] => y = -10.00\u{b7}x + 2.00)"
    );
}

#[test]
fn round_trip_membership_through_piecewise() {
    // the ramp slopes divide evenly, so the piecewise form reproduces the
    // membership degrees exactly
    let t = Trapezoidal::new(vec![0, 10000, 20000, 30000]).unwrap();
    let plf = t.to_piecewise();
    let samples: Vec<i64> = vec![0, 2500, 5000, 7500, 10000, 15000, 20000, 25000, 30000];
    for x in samples {
        let expected = t.membership_value(x);
        let got = plf.value_at(x).unwrap_or(0);
        assert_eq!(got, expected);
    }
}

#[test]
fn round_trip_membership_within_tolerance() {
    // a ramp whose slope does not divide evenly rounds its coefficients,
    // so the piecewise value may drift by a few fixed-point units
    let t = Trapezoidal::new(vec![0, 30000, 30000, 60000]).unwrap();
    let plf = t.to_piecewise();
    let samples: Vec<i64> = vec![0, 7500, 15000, 29999, 30000, 45000, 60000];
    for x in samples {
        let expected = t.membership_value(x);
        let got = plf.value_at(x).unwrap_or(0);
        let diff = if got >= expected { got - expected } else { expected - got };
        assert!(diff <= 5, "membership {} vs piecewise {} at {}", expected, got, x);
    }
}
