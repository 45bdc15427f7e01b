//! Bounded ranges: construction, intersection and difference (values in
//! fixed-point units of 1/100000).

use assessment::domain::Quantitative;
use assessment::domain::QuantitativeError;

#[test]
fn new_accepts_ordered_ranges() {
    assert!(Quantitative::new(-100000, 300000).is_ok());
    assert!(Quantitative::new(-100000, -100000).is_ok());
    assert!(Quantitative::new(-130000, -120000).is_ok());
}

#[test]
fn new_rejects_inverted_ranges() {
    assert_eq!(
        Quantitative::new(1000000, 500000),
        Err(QuantitativeError::InvalidRange { inf: 1000000, sup: 500000 })
    );
}

#[test]
fn quantitative_accessors() {
    let domain = Quantitative::new(-100000, 0).unwrap();
    assert_eq!(domain.inf(), -100000);
    assert_eq!(domain.sup(), 0);
}

#[test]
fn valid_assessment_bounds() {
    let domain = Quantitative::new(-130000, -30000).unwrap();
    assert!(domain.valid_assessment(-130000));
    assert!(domain.valid_assessment(-30000));
    assert!(domain.valid_assessment(-120000));
    assert!(domain.valid_assessment(-40000));
    assert!(!domain.valid_assessment(-140000));
    assert!(!domain.valid_assessment(-20000));
}

#[test]
fn intersection_table() {
    let domain = Quantitative::new(0, 100000).unwrap();
    let cases: Vec<(i64, i64, Option<(i64, i64)>)> = vec![
        (0, 100000, Some((0, 100000))),
        (50000, 100000, Some((50000, 100000))),
        (100000, 150000, None),
        (-100000, 0, None),
        (-100000, 50000, Some((0, 50000))),
        (-100000, 200000, Some((0, 100000))),
        (25000, 75000, Some((25000, 75000))),
    ];
    for (inf, sup, expected) in cases {
        let other = Quantitative::new(inf, sup).unwrap();
        let got = domain.intersection(&other).map(|q| (q.inf(), q.sup()));
        assert_eq!(got, expected);
    }
}

#[test]
fn degenerate_ranges_intersect_nothing() {
    let point = Quantitative::new(50000, 50000).unwrap();
    let range = Quantitative::new(0, 100000).unwrap();
    assert_eq!(point.intersection(&point), None);
    assert_eq!(point.intersection(&range), None);
    assert_eq!(range.intersection(&point), None);
}

#[test]
fn intersection_is_symmetric() {
    let samples: Vec<(i64, i64)> =
        vec![(0, 100000), (50000, 150000), (-100000, 20000), (20000, 30000), (0, 100000)];
    for &(ai, asup) in &samples {
        for &(bi, bsup) in &samples {
            let a = Quantitative::new(ai, asup).unwrap();
            let b = Quantitative::new(bi, bsup).unwrap();
            assert_eq!(a.intersection(&b), b.intersection(&a));
        }
    }
}

#[test]
fn difference_table() {
    let domain = Quantitative::new(0, 100000).unwrap();
    let cases: Vec<(i64, i64, Vec<(i64, i64)>)> = vec![
        (0, 100000, vec![]),
        (50000, 100000, vec![(0, 50000)]),
        (50000, 150000, vec![(0, 50000)]),
        (100000, 150000, vec![(0, 100000)]),
        (-100000, 0, vec![(0, 100000)]),
        (-100000, 50000, vec![(50000, 100000)]),
        (-100000, 200000, vec![]),
        (25000, 75000, vec![(0, 25000), (75000, 100000)]),
    ];
    for (inf, sup, expected) in cases {
        let other = Quantitative::new(inf, sup).unwrap();
        let got: Vec<(i64, i64)> =
            domain.difference(&other).iter().map(|q| (q.inf(), q.sup())).collect();
        assert_eq!(got, expected);
    }
}
