use gizmo_graph_db::graph::graphmock::Store;
use gizmo_graph_db::graph::iterator::fixed::Fixed;
use gizmo_graph_db::graph::iterator::limit::Limit;
use gizmo_graph_db::graph::iterator::Shape;
use gizmo_graph_db::graph::refs::{Content, Ref};
use gizmo_graph_db::graph::value::Value;

fn fixed(list: &[i64]) -> Shape {
    Shape::Fixed(Fixed::new(list.iter().map(|n| Ref::new_i64_node(*n)).collect()))
}

fn iterated(s: &Shape, qs: &Store) -> Vec<i64> {
    let mut res = Vec::new();
    let mut it = s.iterate(qs);
    while it.next(qs) {
        match it.result().unwrap().content {
            Content::Value(Value::Number(n)) => res.push(n.as_i64().unwrap()),
            _ => panic!("Not i64 value"),
        }
    }
    let _ = it.close();
    res
}

#[test]
fn test_limit_iterator_basics() {
    let qs = Store::new();
    let all_it = fixed(&[1, 2, 3, 4, 5]);

    let u = Shape::Limit(Limit::new(all_it.copy(), 0));
    let expect_sz = all_it.stats(&qs);
    let sz = u.stats(&qs);
    assert_eq!(expect_sz.unwrap().size.value, sz.unwrap().size.value);
    assert_eq!(vec![1, 2, 3, 4, 5], iterated(&u, &qs));

    let u = Shape::Limit(Limit::new(all_it.copy(), 3));
    let sz = u.stats(&qs);
    assert_eq!(3, sz.unwrap().size.value);
    assert_eq!(vec![1, 2, 3], iterated(&u, &qs));

    let mut uc = u.lookup(&qs);
    for v in vec![1, 2, 3] {
        assert!(uc.contains(&qs, &Ref::new_i64_node(v)));
    }
    assert!(!uc.contains(&qs, &Ref::new_i64_node(4)));

    let mut uc = u.lookup(&qs);
    for v in vec![5, 4, 3] {
        assert!(uc.contains(&qs, &Ref::new_i64_node(v)));
    }
    assert!(!uc.contains(&qs, &Ref::new_i64_node(2)));
}
