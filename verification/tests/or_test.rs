use gizmo_graph_db::graph::graphmock::Store;
use gizmo_graph_db::graph::iterator::fixed::Fixed;
use gizmo_graph_db::graph::iterator::or::Or;
use gizmo_graph_db::graph::iterator::{Error, Shape};
use gizmo_graph_db::graph::refs::{Content, Ref, Size};
use gizmo_graph_db::graph::value::Value;

fn fixed(list: &[i64]) -> Shape {
    Shape::Fixed(Fixed::new(list.iter().map(|n| Ref::new_i64_node(*n)).collect()))
}

fn int_nodes(min: i64, max: i64) -> Shape {
    Shape::Fixed(Fixed::new((min..=max).map(Ref::new_i64_node).collect()))
}

fn iterated(s: &Shape, qs: &Store) -> Vec<i64> {
    let mut res = Vec::new();
    let mut it = s.iterate(qs);
    while it.next(qs) {
        match it.result().unwrap().content {
            Content::Value(Value::Number(n)) => res.push(n.as_i64().unwrap()),
            _ => panic!("Not i64 value"),
        }
    }
    let _ = it.close();
    res
}

#[test]
fn test_or_iterator_basics() {
    let qs = Store::new();
    let mut or = Or::new(Vec::new());

    let f1 = fixed(&[1, 2, 3]);
    let f2 = fixed(&[3, 9, 20, 21]);

    or.add_sub_iterator(f1);
    or.add_sub_iterator(f2);
    let mut or = Shape::Or(or);

    let stats = or.stats(&qs);
    assert_eq!(7, stats.as_ref().unwrap().size.value);

    let expect = vec![1, 2, 3, 3, 9, 20, 21];
    for i in 0..2 {
        println!("i: {}", i);
        assert_eq!(expect, iterated(&or, &qs));
    }

    let opt_or = or.optimize(&qs);
    if let Some(o) = opt_or {
        assert_eq!(expect, iterated(&o, &qs));
    } else {
        panic!("Optimize returned None")
    }

    let mut orc = or.lookup(&qs);
    for v in vec![2, 3, 21] {
        assert!(orc.contains(&qs, &Ref::new_i64_node(v)));
    }

    for v in vec![22, 5, 0] {
        assert!(!orc.contains(&qs, &Ref::new_i64_node(v)));
    }
}

#[test]
fn test_short_circuiting_or_basics() {
    let qs = Store::new();
    let f1 = fixed(&[1, 2, 3]);
    let f2 = fixed(&[3, 9, 20, 21]);

    let mut or = Or::new_short_circuit(Vec::new());
    or.add_sub_iterator(f1.copy());
    or.add_sub_iterator(f2.copy());
    let or = Shape::Or(or);

    let stats = or.stats(&qs);
    assert_eq!(stats.as_ref().unwrap().size, Size { value: 4, exact: true });

    let mut or = Or::new_short_circuit(Vec::new());
    or.add_sub_iterator(f1.copy());
    or.add_sub_iterator(f2.copy());
    let mut or = Shape::Or(or);

    let expect = vec![1, 2, 3];
    for _ in 0..2 {
        assert_eq!(expect, iterated(&or, &qs));
    }

    let opt_or = or.optimize(&qs);
    if let Some(o) = opt_or {
        assert_eq!(expect, iterated(&o, &qs));
    } else {
        panic!("Optimize returned None")
    }

    let mut or = Or::new_short_circuit(Vec::new());
    or.add_sub_iterator(f1.copy());
    or.add_sub_iterator(f2.copy());
    let or = Shape::Or(or);

    let mut orc = or.lookup(&qs);
    for v in vec![2, 3, 21] {
        assert!(orc.contains(&qs, &Ref::new_i64_node(v)));
    }

    for v in vec![22, 5, 0] {
        assert!(!orc.contains(&qs, &Ref::new_i64_node(v)));
    }

    let mut or = Or::new_short_circuit(Vec::new());
    or.add_sub_iterator(Shape::Fixed(Fixed::new(vec![])));
    or.add_sub_iterator(f2.copy());
    let mut or = Shape::Or(or);

    let expect = vec![3, 9, 20, 21];
    for _ in 0..2 {
        assert_eq!(expect, iterated(&or, &qs));
    }

    let opt_or = or.optimize(&qs);
    if let Some(o) = opt_or {
        assert_eq!(expect, iterated(&o, &qs));
    } else {
        panic!("Optimize returned None")
    }
}

#[test]
fn test_or_iterator_err() {
    let qs = Store::new();
    let or_err = Error::new("unique".to_string());

    let fix1 = fixed(&[1]);

    let mut or = Shape::Or(Or::new(vec![fix1, or_err, int_nodes(1, 5)])).iterate(&qs);

    assert!(or.next(&qs));
    assert_eq!(Ref::new_i64_node(1), or.result().unwrap());

    assert!(!or.next(&qs));
    assert_eq!("unique", or.err().unwrap());
}

#[test]
fn test_short_circuit_or_iterator_err() {
    let qs = Store::new();
    let or_err = Error::new("unique".to_string());

    let mut or = Shape::Or(Or::new(vec![or_err, int_nodes(1, 5)])).iterate(&qs);

    assert!(!or.next(&qs));
    assert_eq!("unique", or.err().unwrap());
}
