//! Label names and their standardized form.

use assessment::fuzzy::Label;
use assessment::fuzzy::LabelError;
use assessment::fuzzy::label::get_labels_names;
use assessment::fuzzy::label::is_standardized;
use assessment::fuzzy::label::standardize_name;
use assessment::fuzzy::membership::Trapezoidal;

#[test]
fn standardize_name_table() {
    assert_eq!(standardize_name("ok"), "ok");
    assert_eq!(standardize_name(" NoT oK "), "not ok");
}

#[test]
fn is_standardized_table() {
    assert!(is_standardized("ok"));
    assert!(!is_standardized(" NoT oK "));
    assert!(is_standardized(""));
}

#[test]
fn label_new_accepts_standardized_names() {
    let label = Label::new(
        String::from("a"),
        Trapezoidal::new(vec![0, 50000, 100000]).unwrap(),
    )
    .unwrap();
    assert_eq!(*label.name(), "a");
    assert_eq!(label.membership().center(), (50000, 50000));
}

#[test]
fn label_new_rejects_non_standardized_names() {
    for name in [" a", "A", " c "] {
        assert_eq!(
            Label::new(
                name.to_string(),
                Trapezoidal::new(vec![0, 50000, 100000]).unwrap(),
            ),
            Err(LabelError::NonStandardizedName { name: name.to_string() })
        );
    }
}

#[test]
fn label_new_rejects_empty_names() {
    assert_eq!(
        Label::new(String::new(), Trapezoidal::new(vec![0, 50000, 100000]).unwrap()),
        Err(LabelError::EmptyName)
    );
}

#[test]
fn labels_names_in_order() {
    let labels = vec![
        Label::new(String::from("a"), Trapezoidal::new(vec![0, 0, 100000]).unwrap()).unwrap(),
        Label::new(String::from("b"), Trapezoidal::new(vec![0, 100000, 100000]).unwrap())
            .unwrap(),
    ];
    assert_eq!(get_labels_names(&labels), vec!["a".to_string(), "b".to_string()]);
}
