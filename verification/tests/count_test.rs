use gizmo_graph_db::graph::graphmock::Store;
use gizmo_graph_db::graph::iterator::and::And;
use gizmo_graph_db::graph::iterator::count::Count;
use gizmo_graph_db::graph::iterator::fixed::Fixed;
use gizmo_graph_db::graph::iterator::Shape;
use gizmo_graph_db::graph::refs::pre_fetched;
use gizmo_graph_db::graph::value::Value;

fn strings(list: &[&str]) -> Shape {
    Shape::Fixed(Fixed::new(list.iter().map(|s| pre_fetched(Value::from_str(s))).collect()))
}

#[test]
fn test_count() {
    let qs = Store::new();
    let fixed = strings(&["a", "b", "c", "d", "e"]);

    let its = Shape::Count(Count::new(fixed.copy(), false));

    let mut itn = its.iterate(&qs);
    assert!(itn.next(&qs));
    assert_eq!(pre_fetched(Value::from_i64(5)), itn.result().unwrap());
    assert!(!itn.next(&qs));

    let mut itc = its.lookup(&qs);
    assert!(itc.contains(&qs, &pre_fetched(Value::from_i64(5))));
    assert!(!itc.contains(&qs, &pre_fetched(Value::from_i64(3))));

    let fixed2 = strings(&["b", "d"]);

    let its = Shape::Count(Count::new(Shape::And(And::new(vec![fixed.copy(), fixed2])), false));

    let mut itn = its.iterate(&qs);
    assert!(itn.next(&qs));
    assert_eq!(pre_fetched(Value::from_i64(2)), itn.result().unwrap());
    assert!(!itn.next(&qs));

    let mut itc = its.lookup(&qs);
    assert!(!itc.contains(&qs, &pre_fetched(Value::from_i64(5))));
    assert!(itc.contains(&qs, &pre_fetched(Value::from_i64(2))));
}

#[test]
fn count_of_nothing_is_zero() {
    let qs = Store::new();
    let its = Shape::Count(Count::new(Shape::Fixed(Fixed::new(vec![])), false));
    let mut itn = its.iterate(&qs);
    assert!(itn.next(&qs));
    assert_eq!(pre_fetched(Value::from_i64(0)), itn.result().unwrap());
    assert!(!itn.next(&qs));
}
