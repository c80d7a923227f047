use gizmo_graph_db::graph::graphmock::Store;
use gizmo_graph_db::graph::iterator::fixed::Fixed;
use gizmo_graph_db::graph::iterator::not::Not;
use gizmo_graph_db::graph::iterator::{Error, Shape};
use gizmo_graph_db::graph::refs::{Content, Ref};
use gizmo_graph_db::graph::value::Value;

fn fixed(list: &[i64]) -> Shape {
    Shape::Fixed(Fixed::new(list.iter().map(|n| Ref::new_i64_node(*n)).collect()))
}

fn iterated(s: &Shape, qs: &Store) -> Vec<i64> {
    let mut res = Vec::new();
    let mut it = s.iterate(qs);
    while it.next(qs) {
        match it.result().unwrap().content {
            Content::Value(Value::Number(n)) => res.push(n.as_i64().unwrap()),
            _ => panic!("Not i64 value"),
        }
    }
    let _ = it.close();
    res
}

#[test]
fn not_tests_test_not_iterator_basics() {
    let qs = Store::new();
    let all_it = fixed(&[1, 2, 3, 4]);
    let to_compliment_it = fixed(&[2, 4]);

    let not = Shape::Not(Not::new(to_compliment_it, all_it));

    let st = not.stats(&qs);
    assert_eq!(2, st.unwrap().size.value);

    let expect = vec![1, 3];
    for _ in 0..2 {
        assert_eq!(expect, iterated(&not, &qs));
    }

    let mut nc = not.lookup(&qs);
    for v in vec![1, 3] {
        assert!(nc.contains(&qs, &Ref::new_i64_node(v)));
    }

    for v in vec![2, 4] {
        assert!(!nc.contains(&qs, &Ref::new_i64_node(v)));
    }
}

#[test]
fn test_not_iterator_err() {
    let qs = Store::new();
    let all_it = Error::new("unique".to_string());

    let to_complement_it = Shape::Fixed(Fixed::new(vec![]));

    let mut not = Shape::Not(Not::new(to_complement_it, all_it)).iterate(&qs);

    assert!(!not.next(&qs));
    assert_eq!(Some("unique".to_string()), not.err());
}
