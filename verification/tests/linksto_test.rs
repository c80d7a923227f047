use gizmo_graph_db::graph::graphmock::Store;
use gizmo_graph_db::graph::iterator::fixed::Fixed;
use gizmo_graph_db::graph::iterator::Shape;
use gizmo_graph_db::graph::linksto::LinksTo;
use gizmo_graph_db::graph::quad::{Direction, Quad, QuadStore};
use gizmo_graph_db::graph::value::Value;

#[test]
fn test_links_to() {
    let object = Value::from_str("cool");
    let q = Quad {
        subject: Value::from_str("alice"),
        predicate: Value::from_str("is"),
        object: object.clone(),
        label: Value::from_str(""),
    };
    let qs = Store { data: vec![q.clone()] };
    let mut fixed = Fixed::new(vec![]);

    let val = qs.value_of(&object).unwrap();

    fixed.add(val);
    let mut lto = Shape::LinksTo(LinksTo::new(Shape::Fixed(fixed), Direction::Object)).iterate(&qs);

    assert!(lto.next(&qs));
    assert_eq!(q, qs.quad(lto.result().as_ref().unwrap()).unwrap());
}
