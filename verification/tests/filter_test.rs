use gizmo_graph_db::graph::iterator::value_filter::{ComparisonValueFilter, Operator, RegexValueFilter};
use gizmo_graph_db::graph::value::Value;
use gizmo_graph_db::query::filter::{quote_meta, Regexp, Wildcard};

#[test]
fn quote_meta_escapes_regex_characters() {
    assert_eq!(quote_meta(&"a.b*c".to_string()), "a\\.b\\*c");
    assert_eq!(quote_meta(&"(x|y)?".to_string()), "\\(x\\|y\\)\\?");
    assert_eq!(quote_meta(&"plain".to_string()), "plain");
}

#[test]
fn wildcards_become_anchored_regular_expressions() {
    assert_eq!(Wildcard::new("al%".to_string()).regexp(), "^al");
    assert_eq!(Wildcard::new("a?i%e".to_string()).regexp(), "^a.i.*e$");
    assert_eq!(Wildcard::new("%li%".to_string()).regexp(), "li");
    assert_eq!(Wildcard::new("a.b".to_string()).regexp(), "^a\\.b$");
}

#[test]
fn an_invalid_regular_expression_is_refused() {
    assert!(Regexp::new("(".to_string(), false).is_err());
    assert!(RegexValueFilter::new("a(".to_string(), true).is_err());
    assert!(Regexp::new("a+".to_string(), false).is_ok());
}

#[test]
fn regular_expressions_test_strings_and_optionally_iris() {
    let strict = RegexValueFilter::new("^al".to_string(), false).unwrap();
    let with_iris = RegexValueFilter::new("^al".to_string(), true).unwrap();
    let s = Value::from_str("alice");
    let iri = Value::from_str("<alice>");
    assert!(strict.filter(&s));
    assert!(!strict.filter(&iri));
    assert!(with_iris.filter(&iri));
    assert!(!with_iris.filter(&Value::from_str("bob")));
    assert!(!with_iris.filter(&Value::from_i64(1)));
}

#[test]
fn comparisons_keep_the_values_on_the_named_side() {
    let gt = ComparisonValueFilter::new(Operator::GT, Value::from_str("<c>"));
    assert!(gt.filter(&Value::from_str("<charlie>")));
    assert!(!gt.filter(&Value::from_str("<bob>")));
    let lte = ComparisonValueFilter::new(Operator::LTE, Value::from_i64(10));
    assert!(lte.filter(&Value::from_i64(10)));
    assert!(lte.filter(&Value::from_i64(-3)));
    assert!(!lte.filter(&Value::from_i64(11)));
    // numbers are only compared with numbers
    assert!(!lte.filter(&Value::from_str("5")));
}
