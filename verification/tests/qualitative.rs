//! Qualitative domains and their structural predicates (values in
//! fixed-point units of 1/100000).

use assessment::domain::Qualitative;
use assessment::domain::QualitativeError;
use assessment::fuzzy::Label;
use assessment::fuzzy::membership::Trapezoidal;

fn label(name: &str, limits: Vec<i64>) -> Label {
    Label::new(name.to_string(), Trapezoidal::new(limits).unwrap()).unwrap()
}

fn domain(labels: Vec<Label>) -> Qualitative {
    Qualitative::new(labels).unwrap()
}

fn two_label_partition() -> Qualitative {
    domain(vec![label("a", vec![0, 0, 100000]), label("b", vec![0, 100000, 100000])])
}

fn three_label_partition() -> Qualitative {
    domain(vec![
        label("a", vec![0, 0, 50000]),
        label("b", vec![0, 50000, 100000]),
        label("c", vec![50000, 100000, 100000]),
    ])
}

fn five_label_partition() -> Qualitative {
    domain(vec![
        label("a", vec![0, 0, 25000]),
        label("b", vec![0, 25000, 50000]),
        label("c", vec![25000, 50000, 75000]),
        label("d", vec![50000, 75000, 100000]),
        label("e", vec![75000, 100000, 100000]),
    ])
}

fn four_label_partition() -> Qualitative {
    domain(vec![
        label("a", vec![0, 0, 33333]),
        label("b", vec![0, 33333, 66667]),
        label("c", vec![33333, 66667, 100000]),
        label("d", vec![66667, 100000, 100000]),
    ])
}

#[test]
fn new_accepts_distinct_names() {
    assert!(Qualitative::new(Vec::new()).is_ok());
    assert!(Qualitative::new(vec![
        label("a", vec![0, 0, 100000]),
        label("b", vec![0, 100000, 100000]),
    ])
    .is_ok());
}

#[test]
fn new_rejects_duplicate_names() {
    let result = Qualitative::new(vec![
        label("a", vec![0, 0, 100000]),
        label("a", vec![0, 100000, 100000]),
    ]);
    assert_eq!(result.unwrap_err(), QualitativeError::DuplicateName { name: "a".to_string() });
}

#[test]
fn cardinality_counts_labels() {
    assert_eq!(domain(Vec::new()).cardinality(), 0);
    assert_eq!(two_label_partition().cardinality(), 2);
}

#[test]
fn contains_and_index() {
    let d = two_label_partition();
    assert!(d.contains_label("a"));
    assert!(d.contains_label("b"));
    assert!(!d.contains_label("c"));
    assert_eq!(d.label_index("a"), Some(0));
    assert_eq!(d.label_index("b"), Some(1));
    assert_eq!(d.label_index("c"), None);
}

#[test]
fn get_label_by_index_and_name() {
    let d = two_label_partition();
    assert_eq!(*d.get_label_by_index(0).unwrap().name(), "a");
    assert_eq!(*d.get_label_by_index(1).unwrap().name(), "b");
    assert!(d.get_label_by_index(2).is_none());
    assert_eq!(*d.get_label_by_name("b").unwrap().name(), "b");
    assert!(d.get_label_by_name("c").is_none());
}

#[test]
fn domain_labels_names_in_order() {
    assert_eq!(
        two_label_partition().get_labels_names(),
        vec!["a".to_string(), "b".to_string()]
    );
}

#[test]
fn is_odd_counts() {
    assert!(!two_label_partition().is_odd());
    assert!(three_label_partition().is_odd());
    assert!(five_label_partition().is_odd());
    assert!(!four_label_partition().is_odd());
}

#[test]
fn is_triangular_checks_every_label() {
    assert!(three_label_partition().is_triangular());
    let with_flat = domain(vec![label("a", vec![0, 25000, 75000, 100000])]);
    assert!(!with_flat.is_triangular());
}

#[test]
fn fuzzy_partition_holds_for_complementary_ramps() {
    assert!(two_label_partition().is_fuzzy_partition());
}

#[test]
fn fuzzy_partition_fails_with_a_gap() {
    let gappy = domain(vec![
        label("a", vec![0, 0, 50000]),
        label("b", vec![50000, 100000, 100000]),
    ]);
    assert!(!gappy.is_fuzzy_partition());
}

#[test]
fn fuzzy_partition_holds_for_three_triangles() {
    assert!(three_label_partition().is_fuzzy_partition());
}

#[test]
fn domain_piecewise_renders() {
    assert_eq!(
        two_label_partition().to_piecewise().render(),
        "([0.00, 1.00] => y = 0.00\u{b7}x + 1.00)"
    );
    let gappy = domain(vec![
        label("a", vec![0, 0, 50000]),
        label("b", vec![50000, 100000, 100000]),
    ]);
    assert_eq!(
        gappy.to_piecewise().render(),
        "([0.00, 0.50] => y = -2.00\u{b7}x + 1.00); ([0.50, 1.00] => y = 2.00\u{b7}x - 1.00)"
    );
    assert_eq!(
        three_label_partition().to_piecewise().render(),
        "([0.00, 1.00] => y = 0.00\u{b7}x + 1.00)"
    );
}

#[test]
fn is_tor_table() {
    assert!(three_label_partition().is_tor());
    assert!(!two_label_partition().is_tor());
    let single = domain(vec![label("a", vec![0, 0, 50000])]);
    assert!(!single.is_tor());
    assert!(!four_label_partition().is_tor());
}

#[test]
fn five_label_symmetric_domain_is_blts() {
    let d = five_label_partition();
    assert!(d.is_tor());
    assert!(d.is_symmetrical());
    assert!(d.is_uniform());
    assert!(d.is_blts());
}

#[test]
fn four_label_domain_is_not_blts() {
    assert!(!four_label_partition().is_blts());
}

#[test]
fn asymmetric_domain_is_not_symmetrical() {
    let skewed = domain(vec![
        label("a", vec![0, 0, 80000]),
        label("b", vec![0, 80000, 100000]),
        label("c", vec![80000, 100000, 100000]),
    ]);
    assert!(!skewed.is_symmetrical());
    assert!(!skewed.is_uniform());
}
