use gizmo_graph_db::graph::graphmock::Store;
use gizmo_graph_db::graph::iterator::fixed::Fixed;
use gizmo_graph_db::graph::iterator::unique::Unique;
use gizmo_graph_db::graph::iterator::Shape;
use gizmo_graph_db::graph::refs::{Content, Ref};
use gizmo_graph_db::graph::value::Value;

fn fixed(list: &[i64]) -> Shape {
    Shape::Fixed(Fixed::new(list.iter().map(|n| Ref::new_i64_node(*n)).collect()))
}

fn iterated(s: &Shape, qs: &Store) -> Vec<i64> {
    let mut res = Vec::new();
    let mut it = s.iterate(qs);
    while it.next(qs) {
        match it.result().unwrap().content {
            Content::Value(Value::Number(n)) => res.push(n.as_i64().unwrap()),
            _ => panic!("Not i64 value"),
        }
    }
    let _ = it.close();
    res
}

#[test]
fn test_unique_iterator_basics() {
    let qs = Store::new();
    let all_it = fixed(&[1, 2, 3, 3, 2]);

    let u = Shape::Unique(Unique::new(all_it));

    let expect = vec![1, 2, 3];
    for _ in 0..2 {
        assert_eq!(expect, iterated(&u, &qs));
    }

    let mut uc = u.lookup(&qs);
    for v in 1..4 {
        assert!(uc.contains(&qs, &Ref::new_i64_node(v)));
    }
}
