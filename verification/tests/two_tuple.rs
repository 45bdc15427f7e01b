//! Two-tuple linguistic valuations (values in fixed-point units of
//! 1/100000).

use assessment::domain::Qualitative;
use assessment::fuzzy::Label;
use assessment::fuzzy::membership::Trapezoidal;
use assessment::valuation::TwoTuple;
use assessment::valuation::TwoTupleError;

fn label(name: &str, limits: Vec<i64>) -> Label {
    Label::new(name.to_string(), Trapezoidal::new(limits).unwrap()).unwrap()
}

fn two_label_domain() -> Qualitative {
    Qualitative::new(vec![
        label("a", vec![0, 0, 100000]),
        label("b", vec![0, 100000, 100000]),
    ])
    .unwrap()
}

fn five_label_domain() -> Qualitative {
    Qualitative::new(vec![
        label("a", vec![0, 0, 25000]),
        label("b", vec![0, 25000, 50000]),
        label("c", vec![25000, 50000, 75000]),
        label("d", vec![50000, 75000, 100000]),
        label("e", vec![75000, 100000, 100000]),
    ])
    .unwrap()
}

#[test]
fn new_by_index_checks_index_and_translation() {
    let domain = two_label_domain();
    assert!(TwoTuple::new_by_label_index(&domain, 0, 0).is_ok());
    assert_eq!(
        TwoTuple::new_by_label_index(&domain, 2, 0).unwrap_err(),
        TwoTupleError::InvalidIndex { cardinality: 2, index: 2 }
    );
    assert_eq!(
        TwoTuple::new_by_label_index(&domain, 1, -51000).unwrap_err(),
        TwoTupleError::InvalidSymbolicTranslationValue { alpha: -51000 }
    );
    assert_eq!(
        TwoTuple::new_by_label_index(&domain, 0, 50000).unwrap_err(),
        TwoTupleError::InvalidSymbolicTranslationValue { alpha: 50000 }
    );
    assert_eq!(
        TwoTuple::new_by_label_index(&domain, 0, -10000).unwrap_err(),
        TwoTupleError::InvalidSymbolicTranslationOnFirstLabel { alpha: -10000 }
    );
    assert_eq!(
        TwoTuple::new_by_label_index(&domain, 1, 10000).unwrap_err(),
        TwoTupleError::InvalidSymbolicTranslationOnLastLabel { alpha: 10000 }
    );
}

#[test]
fn new_by_name_finds_labels() {
    let domain = two_label_domain();
    assert!(TwoTuple::new_by_label_name(&domain, "a", 0).is_ok());
    for name in ["c", "A", " a"] {
        assert_eq!(
            TwoTuple::new_by_label_name(&domain, name, 0).unwrap_err(),
            TwoTupleError::InvalidName { name: name.to_string() }
        );
    }
}

#[test]
fn two_tuple_accessors() {
    let domain = two_label_domain();
    let t = TwoTuple::new_by_label_index(&domain, 0, 20000).unwrap();
    assert_eq!(t.index(), 0);
    assert_eq!(t.alpha(), 20000);
    assert_eq!(*t.label().name(), "a");
    let u = TwoTuple::new_by_label_index(&domain, 1, -23000).unwrap();
    assert_eq!(u.alpha(), -23000);
    assert_eq!(u.inverse_delta(), 77000);
}

#[test]
fn delta_table() {
    let domain = two_label_domain();
    let cases: Vec<(i64, usize, i64)> = vec![
        (0, 0, 0),
        (20000, 0, 20000),
        (49000, 0, 49000),
        (50000, 1, -50000),
        (75000, 1, -25000),
        (100000, 1, 0),
    ];
    for (beta, index, alpha) in cases {
        let t = TwoTuple::delta(&domain, beta).unwrap();
        assert_eq!((t.index(), t.alpha()), (index, alpha));
    }
    assert_eq!(
        TwoTuple::delta(&domain, 175000).unwrap_err(),
        TwoTupleError::InvalidIndex { cardinality: 2, index: 2 }
    );
    assert_eq!(
        TwoTuple::delta(&domain, -20000).unwrap_err(),
        TwoTupleError::InvalidSymbolicTranslationOnFirstLabel { alpha: -20000 }
    );
    assert_eq!(
        TwoTuple::delta(&domain, 120000).unwrap_err(),
        TwoTupleError::InvalidSymbolicTranslationOnLastLabel { alpha: 20000 }
    );
}

fn three_label_domain() -> Qualitative {
    Qualitative::new(vec![
        label("a", vec![0, 0, 50000]),
        label("b", vec![0, 50000, 100000]),
        label("c", vec![50000, 100000, 100000]),
    ])
    .unwrap()
}

#[test]
fn two_tuple_transform_in_domain() {
    let source = three_label_domain();
    let valuation = TwoTuple::new_by_label_index(&source, 1, 30000).unwrap();
    let transformed = valuation.transform_in_domain(&five_label_domain()).unwrap();
    assert_eq!((transformed.index(), transformed.alpha()), (3, -40000));
    assert!(valuation.transform_in_domain(&two_label_domain()).is_err());
}

#[test]
fn two_tuple_unification_in_domain() {
    let source = three_label_domain();
    let valuation = TwoTuple::new_by_label_index(&source, 1, 30000).unwrap();
    let unified = valuation.unification_in_domain(&source).unwrap();
    assert_eq!(*unified.measures(), vec![0, 70000, 30000]);
    let rescaled = valuation.unification_in_domain(&five_label_domain()).unwrap();
    assert_eq!(*rescaled.measures(), vec![0, 0, 40000, 60000, 0]);
    assert!(valuation.unification_in_domain(&two_label_domain()).is_err());
}

#[test]
fn neg_reflects_about_the_middle() {
    let domain = five_label_domain();
    let b = TwoTuple::new_by_label_name(&domain, "b", 0).unwrap();
    let d = TwoTuple::new_by_label_name(&domain, "d", 0).unwrap();
    assert!(b.neg() == d);
    let a = TwoTuple::new_by_label_name(&domain, "a", 25000).unwrap();
    let e = TwoTuple::new_by_label_name(&domain, "e", -25000).unwrap();
    assert!(a.neg() == e);
    let c_minus = TwoTuple::new_by_label_name(&domain, "c", -20000).unwrap();
    let c_plus = TwoTuple::new_by_label_name(&domain, "c", 20000).unwrap();
    assert!(c_minus.neg() == c_plus);
}
