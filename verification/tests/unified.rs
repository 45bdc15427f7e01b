//! Unified valuations and unification into basic linguistic term sets
//! (values in fixed-point units of 1/100000).

use assessment::domain::Qualitative;
use assessment::domain::Quantitative;
use assessment::fuzzy::Label;
use assessment::fuzzy::membership::Trapezoidal;
use assessment::valuation::Interval;
use assessment::valuation::Numeric;
use assessment::valuation::Single;
use assessment::valuation::Unified;
use assessment::valuation::UnifiedError;

fn label(name: &str, limits: Vec<i64>) -> Label {
    Label::new(name.to_string(), Trapezoidal::new(limits).unwrap()).unwrap()
}

fn blts3() -> Qualitative {
    Qualitative::new(vec![
        label("a", vec![0, 0, 50000]),
        label("b", vec![0, 50000, 100000]),
        label("c", vec![50000, 100000, 100000]),
    ])
    .unwrap()
}

fn blts5() -> Qualitative {
    Qualitative::new(vec![
        label("a", vec![0, 0, 25000]),
        label("b", vec![0, 25000, 50000]),
        label("c", vec![25000, 50000, 75000]),
        label("d", vec![50000, 75000, 100000]),
        label("e", vec![75000, 100000, 100000]),
    ])
    .unwrap()
}

fn not_blts2() -> Qualitative {
    Qualitative::new(vec![
        label("a", vec![0, 0, 100000]),
        label("b", vec![0, 100000, 100000]),
    ])
    .unwrap()
}

#[test]
fn unified_new_checks_domain_count_and_range() {
    let domain = blts3();
    assert!(Unified::new(&domain, vec![0, 50000, 0]).is_ok());
    assert_eq!(
        Unified::new(&not_blts2(), vec![0, 0]).unwrap_err(),
        UnifiedError::NonBLTSDomain
    );
    assert_eq!(
        Unified::new(&domain, vec![0, 0]).unwrap_err(),
        UnifiedError::InvalidMeasures { measures: vec![0, 0] }
    );
    assert_eq!(
        Unified::new(&domain, vec![-100000, 0, 0]).unwrap_err(),
        UnifiedError::InvalidMeasureValue { measure: -100000 }
    );
    assert_eq!(
        Unified::new(&domain, vec![0, 150000, 0]).unwrap_err(),
        UnifiedError::InvalidMeasureValue { measure: 150000 }
    );
}

#[test]
fn unified_accessors() {
    let domain = blts3();
    let unified = Unified::new(&domain, vec![0, 50000, 0]).unwrap();
    assert_eq!(*unified.measures(), vec![0, 50000, 0]);
    assert_eq!(unified.domain().get_labels_names(), domain.get_labels_names());
}

#[test]
fn unified_chi_table() {
    let domain = blts3();
    let cases: Vec<(Vec<i64>, i64)> = vec![
        (vec![0, 0, 0], 0),
        (vec![50000, 0, 0], 0),
        (vec![0, 50000, 0], 100000),
        (vec![0, 0, 50000], 200000),
        (vec![50000, 50000, 0], 50000),
        (vec![100000, 100000, 0], 50000),
        (vec![0, 100000, 100000], 150000),
    ];
    for (measures, chi) in cases {
        assert_eq!(Unified::new(&domain, measures).unwrap().chi(), chi);
    }
}

#[test]
fn numeric_unification_measures() {
    let domain = Quantitative::new(0, 700000).unwrap();
    let valuation = Numeric::new(&domain, 500000).unwrap();
    let unified = valuation.unification(&blts5()).unwrap();
    assert_eq!(*unified.measures(), vec![0, 0, 14284, 85716, 0]);
    assert_eq!(
        valuation.unification(&not_blts2()).unwrap_err(),
        UnifiedError::NonBLTSDomain
    );
}

#[test]
fn interval_unification_measures() {
    let domain = Quantitative::new(0, 700000).unwrap();
    let valuation = Interval::new(&domain, 500000, 600000).unwrap();
    let unified = valuation.unification(&blts5()).unwrap();
    assert_eq!(*unified.measures(), vec![0, 0, 14284, 100000, 42856]);
    assert_eq!(
        valuation.unification(&not_blts2()).unwrap_err(),
        UnifiedError::NonBLTSDomain
    );
}

#[test]
fn single_unification_in_domain() {
    let source = blts3();
    let valuation = Single::new_by_label_index(&source, 1).unwrap();
    let unified = valuation.unification_in_domain(&blts5()).unwrap();
    assert_eq!(*unified.measures(), vec![0, 0, 100000, 0, 0]);
    assert_eq!(
        valuation.unification_in_domain(&not_blts2()).unwrap_err(),
        UnifiedError::NonBLTSDomain
    );
}

#[test]
fn single_transform_in_domain() {
    let source = blts3();
    let valuation = Single::new_by_label_index(&source, 1).unwrap();
    let transformed = valuation.transform_in_domain(&blts5()).unwrap();
    assert_eq!(transformed.index(), 2);
    assert_eq!(
        valuation.transform_in_domain(&not_blts2()).unwrap_err(),
        UnifiedError::NonBLTSDomain
    );
}
