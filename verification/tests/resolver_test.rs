use gizmo_graph_db::graph::graphmock::Store;
use gizmo_graph_db::graph::iterator::resolver::Resolver;
use gizmo_graph_db::graph::iterator::Shape;
use gizmo_graph_db::graph::quad::{Quad, QuadStore};
use gizmo_graph_db::graph::refs::pre_fetched;
use gizmo_graph_db::graph::value::Value;

fn s(x: &str) -> Value {
    Value::from_str(x)
}

fn store_of(nodes: &[Value]) -> Store {
    Store {
        data: nodes.iter().map(|n| Quad::new(s("0"), s("has"), n.clone(), s(""))).collect(),
    }
}

#[test]
fn test_resolver_iterator_iterate() {
    let nodes = vec![s("1"), s("2"), s("3"), s("4"), s("5"), s("3")];

    let qs = store_of(&nodes);
    let expected: Vec<_> = nodes.iter().map(|n| qs.value_of(n)).collect();
    let mut it = Shape::Resolver(Resolver::new(nodes.clone())).iterate(&qs);
    for e in expected.iter() {
        assert!(it.next(&qs));
        assert!(it.err().is_none());
        assert_eq!(*e, it.result());
    }
    assert!(!it.next(&qs));
    assert!(it.result().is_none());
}

#[test]
fn test_resolver_iterator_not_found_error() {
    let nodes = vec![s("1"), s("2"), s("3"), s("4"), s("5")];

    let kept: Vec<Value> = nodes.iter().filter(|n| **n != s("3")).cloned().collect();
    let qs = store_of(&kept);

    let mut count = 0;
    let mut it = Shape::Resolver(Resolver::new(nodes)).iterate(&qs);
    while it.next(&qs) {
        count += 1;
    }
    assert_eq!(0, count);
    assert!(it.err().is_some());
    assert!(it.result().is_none());
}

#[test]
fn test_resolver_iterator_contains() {
    let test = |nodes: Vec<Value>, subject: Value, contains: bool| {
        let qs = store_of(&nodes);
        let mut it = Shape::Resolver(Resolver::new(nodes)).lookup(&qs);
        assert_eq!(contains, it.contains(&qs, &pre_fetched(subject)));
    };

    test(vec![s("1"), s("2"), s("3")], s("2"), true);

    test(vec![s("1"), s("3")], s("2"), false);
}
