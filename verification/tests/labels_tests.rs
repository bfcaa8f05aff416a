use cargo_contribute::labels::canonicalize_label;
use cargo_contribute::labels::default_labels;
use cargo_contribute::labels::LabelFilter;

#[test]
fn issue_labels_are_canonical() {
    for label in default_labels() {
        assert!(label == canonicalize_label(&label));
    }
}

#[test]
fn canonicalize_label_examples() {
    assert_eq!(canonicalize_label("Help Wanted"), "help wanted");
    assert_eq!(canonicalize_label("help wanted"), "help wanted");
    assert_eq!(canonicalize_label("E easy"), "easy");
    assert_eq!(canonicalize_label("E-easy"), "eeasy");
    assert_eq!(canonicalize_label("good first issue!"), "good first issue");
    assert_eq!(canonicalize_label(""), "");
    assert_eq!(canonicalize_label("D"), "");
}

#[test]
fn canonicalize_label_is_idempotent_on_samples() {
    let samples = [
        "Help Wanted!",
        "E easy",
        " beginner ",
        "GOOD-FIRST issue",
        "h\u{e9}llo w\u{f6}rld",
        "A B C",
        "  spaced   out  ",
    ];
    for s in samples {
        let once = canonicalize_label(s);
        assert_eq!(canonicalize_label(&once), once);
    }
}

#[test]
fn filter_accepts_by_canonical_label() {
    let filter = LabelFilter::with_default_labels();
    assert!(filter.accepts_labels(&vec!["Help Wanted".to_string()]));
    assert!(filter.accepts_labels(&vec!["documentation".to_string(), "E easy".to_string()]));
    assert!(!filter.accepts_labels(&vec!["documentation".to_string()]));
    assert!(!filter.accepts_labels(&vec![]));
    let empty = LabelFilter::new(Vec::new());
    assert!(!empty.accepts_labels(&vec!["help wanted".to_string()]));
}
