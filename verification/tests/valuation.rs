//! Numeric, interval and linguistic valuations (values in fixed-point
//! units of 1/100000).

use assessment::domain::Qualitative;
use assessment::domain::Quantitative;
use assessment::fuzzy::Label;
use assessment::fuzzy::membership::Trapezoidal;
use assessment::valuation::Hesitant;
use assessment::valuation::HesitantError;
use assessment::valuation::HesitantRelation;
use assessment::valuation::Interval;
use assessment::valuation::IntervalError;
use assessment::valuation::Numeric;
use assessment::valuation::NumericError;
use assessment::valuation::Single;
use assessment::valuation::SingleError;

fn label(name: &str, limits: Vec<i64>) -> Label {
    Label::new(name.to_string(), Trapezoidal::new(limits).unwrap()).unwrap()
}

fn two_label_domain() -> Qualitative {
    Qualitative::new(vec![
        label("a", vec![0, 0, 100000]),
        label("b", vec![0, 100000, 100000]),
    ])
    .unwrap()
}

#[test]
fn numeric_new_checks_range() {
    let domain = Quantitative::new(100000, 500000).unwrap();
    assert!(Numeric::new(&domain, 200000).is_ok());
    assert_eq!(
        Numeric::new(&domain, 600000),
        Err(NumericError::OutsideRange { value: 600000, inf: 100000, sup: 500000 })
    );
    assert_eq!(
        Numeric::new(&domain, 0),
        Err(NumericError::OutsideRange { value: 0, inf: 100000, sup: 500000 })
    );
}

#[test]
fn numeric_accessors() {
    let domain = Quantitative::new(100000, 500000).unwrap();
    let valuation = Numeric::new(&domain, 200000).unwrap();
    assert_eq!(valuation.value(), 200000);
    assert_eq!(valuation.domain(), domain);
}

#[test]
fn numeric_normalize() {
    let domain = Quantitative::new(0, 1000000).unwrap();
    let valuation = Numeric::new(&domain, 200000).unwrap();
    let normalized = valuation.normalize();
    assert_eq!(normalized.value(), 20000);
    assert_eq!(normalized.domain(), Quantitative::new(0, 100000).unwrap());

    let domain = Quantitative::new(-100000, 500000).unwrap();
    let valuation = Numeric::new(&domain, 200000).unwrap();
    assert_eq!(valuation.normalize().value(), 50000);
}

#[test]
fn numeric_neg_reflects() {
    let domain = Quantitative::new(0, 1000000).unwrap();
    let valuation = Numeric::new(&domain, 200000).unwrap();
    assert_eq!(valuation.neg().value(), 800000);
}

#[test]
fn numeric_transform_in_domain() {
    let domain = Quantitative::new(0, 700000).unwrap();
    let target = Quantitative::new(0, 300000).unwrap();
    let valuation = Numeric::new(&domain, 500000).unwrap();
    let transformed = valuation.transform_in_domain(&target);
    // 5/7 of the target range, truncated onto the fixed-point grid
    assert_eq!(transformed.value(), 214285);
    assert_eq!(transformed.domain(), target);
}

#[test]
fn interval_new_checks_range_then_bounds() {
    let domain = Quantitative::new(100000, 500000).unwrap();
    assert!(Interval::new(&domain, 200000, 300000).is_ok());
    assert_eq!(
        Interval::new(&domain, 300000, 200000),
        Err(IntervalError::InvalidRange { min: 300000, max: 200000 })
    );
    assert_eq!(
        Interval::new(&domain, 0, 300000),
        Err(IntervalError::InvalidMin { min: 0, inf: 100000 })
    );
    assert_eq!(
        Interval::new(&domain, 200000, 600000),
        Err(IntervalError::InvalidMax { max: 600000, sup: 500000 })
    );
}

#[test]
fn interval_accessors_and_normalize() {
    let domain = Quantitative::new(0, 1000000).unwrap();
    let valuation = Interval::new(&domain, 200000, 350000).unwrap();
    assert_eq!(valuation.value(), (200000, 350000));
    assert_eq!(valuation.domain(), domain);
    let normalized = valuation.normalize();
    assert_eq!(normalized.value(), (20000, 35000));
}

#[test]
fn interval_transform_in_domain() {
    let domain = Quantitative::new(0, 700000).unwrap();
    let target = Quantitative::new(0, 300000).unwrap();
    let valuation = Interval::new(&domain, 500000, 600000).unwrap();
    let transformed = valuation.transform_in_domain(&target);
    assert_eq!(transformed.value(), (214285, 257142));
}

#[test]
fn single_new_by_index() {
    let domain = two_label_domain();
    assert!(Single::new_by_label_index(&domain, 0).is_ok());
    assert_eq!(
        Single::new_by_label_index(&domain, 2),
        Err(SingleError::InvalidIndex { cardinality: 2, index: 2 })
    );
}

#[test]
fn single_new_by_name() {
    let domain = two_label_domain();
    assert!(Single::new_by_label_name(&domain, "a").is_ok());
    for name in ["c", "A", " a"] {
        assert_eq!(
            Single::new_by_label_name(&domain, name),
            Err(SingleError::InvalidName { name: name.to_string() })
        );
    }
}

#[test]
fn single_accessors() {
    let domain = two_label_domain();
    assert_eq!(Single::new_by_label_index(&domain, 0).unwrap().index(), 0);
    assert_eq!(Single::new_by_label_index(&domain, 1).unwrap().index(), 1);
    assert_eq!(Single::new_by_label_name(&domain, "b").unwrap().index(), 1);
    let valuation = Single::new_by_label_index(&domain, 1).unwrap();
    assert_eq!(*valuation.label().name(), "b");
    assert_eq!(valuation.domain().get_labels_names(), domain.get_labels_names());
}

#[test]
fn hesitant_validate_accepts_fitting_relations() {
    let domain = two_label_domain();
    assert!(HesitantRelation::SingleValue { domain: domain.clone(), index: 0 }.validate().is_ok());
    assert!(HesitantRelation::AtLeast { domain: domain.clone(), index: 1 }.validate().is_ok());
    assert!(HesitantRelation::AtMost { domain: domain.clone(), index: 1 }.validate().is_ok());
    assert!(HesitantRelation::LowerThan { domain: domain.clone(), index: 1 }.validate().is_ok());
    assert!(
        HesitantRelation::GreaterThan { domain: domain.clone(), index: 0 }.validate().is_ok()
    );
    assert!(HesitantRelation::Between { domain: domain.clone(), lower: 0, upper: 1 }
        .validate()
        .is_ok());
}

#[test]
fn hesitant_validate_rejects_misfits() {
    let domain = two_label_domain();
    assert_eq!(
        HesitantRelation::SingleValue { domain: domain.clone(), index: 2 }
            .validate()
            .unwrap_err(),
        HesitantError::InvalidIndex { cardinality: 2, index: 2 }
    );
    assert_eq!(
        HesitantRelation::LowerThan { domain: domain.clone(), index: 0 }.validate().unwrap_err(),
        HesitantError::InvalidIndex { cardinality: 2, index: 0 }
    );
    assert_eq!(
        HesitantRelation::GreaterThan { domain: domain.clone(), index: 1 }
            .validate()
            .unwrap_err(),
        HesitantError::InvalidIndex { cardinality: 2, index: 1 }
    );
    assert_eq!(
        HesitantRelation::Between { domain: domain.clone(), lower: 1, upper: 1 }
            .validate()
            .unwrap_err(),
        HesitantError::InvalidRange { lower: 1, upper: 1 }
    );
    assert_eq!(
        HesitantRelation::Between { domain: domain.clone(), lower: 0, upper: 2 }
            .validate()
            .unwrap_err(),
        HesitantError::InvalidIndex { cardinality: 2, index: 2 }
    );
}

#[test]
fn hesitant_indexes_table() {
    let domain = two_label_domain();
    let cases: Vec<((usize, usize), HesitantRelation)> = vec![
        ((0, 0), HesitantRelation::SingleValue { domain: domain.clone(), index: 0 }),
        ((1, 1), HesitantRelation::SingleValue { domain: domain.clone(), index: 1 }),
        ((0, 1), HesitantRelation::AtLeast { domain: domain.clone(), index: 0 }),
        ((1, 1), HesitantRelation::AtLeast { domain: domain.clone(), index: 1 }),
        ((0, 0), HesitantRelation::AtMost { domain: domain.clone(), index: 0 }),
        ((0, 1), HesitantRelation::AtMost { domain: domain.clone(), index: 1 }),
        ((0, 0), HesitantRelation::LowerThan { domain: domain.clone(), index: 1 }),
        ((1, 1), HesitantRelation::GreaterThan { domain: domain.clone(), index: 0 }),
        ((0, 1), HesitantRelation::Between { domain: domain.clone(), lower: 0, upper: 1 }),
    ];
    for (expected, relation) in cases {
        assert_eq!(Hesitant::new(relation).unwrap().indexes(), expected);
    }
}

#[test]
fn hesitant_labels_table() {
    let domain = two_label_domain();
    let cases: Vec<((&str, &str), HesitantRelation)> = vec![
        (("a", "a"), HesitantRelation::SingleValue { domain: domain.clone(), index: 0 }),
        (("a", "b"), HesitantRelation::AtLeast { domain: domain.clone(), index: 0 }),
        (("a", "a"), HesitantRelation::LowerThan { domain: domain.clone(), index: 1 }),
        (("b", "b"), HesitantRelation::GreaterThan { domain: domain.clone(), index: 0 }),
        (("a", "b"), HesitantRelation::Between { domain: domain.clone(), lower: 0, upper: 1 }),
    ];
    for ((first, last), relation) in cases {
        let valuation = Hesitant::new(relation).unwrap();
        assert_eq!(valuation.labels(), (first.to_string(), last.to_string()));
    }
}

#[test]
fn hesitant_domain_access() {
    let domain = two_label_domain();
    let valuation =
        Hesitant::new(HesitantRelation::SingleValue { domain: domain.clone(), index: 0 })
            .unwrap();
    assert_eq!(valuation.domain().get_labels_names(), domain.get_labels_names());
}
