use gizmo_graph_db::graph::graphmock::Store;
use gizmo_graph_db::graph::iterator::fixed::Fixed;
use gizmo_graph_db::graph::iterator::materialize::{Materialize, MATERIALIZE_LIMIT};
use gizmo_graph_db::graph::iterator::or::Or;
use gizmo_graph_db::graph::iterator::{Error, Shape};
use gizmo_graph_db::graph::refs::Ref;

fn int_nodes(min: i64, max: i64) -> Shape {
    Shape::Fixed(Fixed::new((min..=max).map(Ref::new_i64_node).collect()))
}

#[test]
fn test_materialize_iterator_error() {
    let qs = Store::new();
    let err_it = Error::new("unique".to_string());

    let mut m_it = Shape::Materialize(Materialize::new(err_it)).iterate(&qs);

    assert!(!m_it.next(&qs));
    assert_eq!(Some("unique".to_string()), m_it.err());
}

#[test]
fn test_materialize_iterator_error_abort() {
    let qs = Store::new();
    let err_it = Error::new("unique".to_string());

    let or = Shape::Or(Or::new(vec![int_nodes(1, (MATERIALIZE_LIMIT + 1) as i64), err_it]));

    let mut m_it = Shape::Materialize(Materialize::new(or)).iterate(&qs);

    for _ in 0..(MATERIALIZE_LIMIT + 1) {
        assert!(m_it.next(&qs));
        assert!(m_it.err().is_none());
    }

    assert!(!m_it.next(&qs));
    assert_eq!(Some("unique".to_string()), m_it.err());
}

#[test]
fn materialize_lists_the_results_of_a_small_shape() {
    let qs = Store::new();
    let mut m_it = Shape::Materialize(Materialize::new(int_nodes(1, 3))).iterate(&qs);
    let mut got = Vec::new();
    while m_it.next(&qs) {
        got.push(m_it.result().unwrap());
    }
    assert_eq!(vec![Ref::new_i64_node(1), Ref::new_i64_node(2), Ref::new_i64_node(3)], got);
    assert!(m_it.err().is_none());
}
