use regex_lite::Regex;
use wn3::casecheck::{CaseRule, CaseType};

#[test]
fn check_impls() {
    let c = "abc".to_owned();
    assert!(c.satisfies("xxabcxx"));
    assert!(c.satisfies("abc"));

    let r = Regex::new("a.c").unwrap();
    assert!(r.satisfies("abc"));
}

#[test]
fn case_type_negations() {
    let r = CaseType::InvariantHas("abc".to_owned());
    assert!(r.check("abc"));
    assert!(!r.check("a c"));
    let r = CaseType::FailHas("abc".to_owned());
    assert!(r.check("abc"));
    assert!(!r.check("a c"));
    let r = CaseType::FailOmits("abc".to_owned());
    assert!(!r.check("abc"));
    assert!(r.check("a c"));
}
