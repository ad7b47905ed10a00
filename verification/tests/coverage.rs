use puml_tooling::coverage::{classify, never_called};

#[test]
fn classifies_negative() {
    assert_eq!(classify(-5), "negative");
}

#[test]
fn classifies_zero() {
    assert_eq!(classify(0), "zero");
}

#[test]
fn classifies_positive_and_doubles() {
    assert_eq!(classify(7), "positive");
    assert_eq!(never_called(21), 42);
    assert_eq!(never_called(-3), -6);
}
