use gizmo_graph_db::graph::graphmock::Store;
use gizmo_graph_db::graph::iterator::and::And;
use gizmo_graph_db::graph::iterator::fixed::Fixed;
use gizmo_graph_db::graph::iterator::save::tag;
use gizmo_graph_db::graph::iterator::tags::TagMap;
use gizmo_graph_db::graph::iterator::{Error, Null, Shape};
use gizmo_graph_db::graph::refs::{Ref, Size};
use std::collections::BTreeMap;

fn int_nodes(min: i64, max: i64) -> Shape {
    Shape::Fixed(Fixed::new((min..=max).map(Ref::new_i64_node).collect()))
}

fn fixed(list: &[i64]) -> Shape {
    Shape::Fixed(Fixed::new(list.iter().map(|n| Ref::new_i64_node(*n)).collect()))
}

fn tag_map(t: &TagMap) -> BTreeMap<String, Ref> {
    let mut m = BTreeMap::new();
    for (k, v) in t.entries.iter() {
        m.insert(k.clone(), v.clone());
    }
    m
}

#[test]
fn test_and_tag() {
    let qs = Store::new();
    let fix1 = fixed(&[234]);
    let fix2 = fixed(&[234]);
    let mut ands = And::new(vec![tag(fix1, "foo".to_string())]);
    ands.add_optional_iterator(tag(fix2, "baz".to_string()));
    let ands = tag(Shape::And(ands), "bar".to_string());

    let mut and = ands.iterate(&qs);
    assert!(and.next(&qs));
    assert_eq!(Ref::new_i64_node(234), and.result().unwrap());

    let mut tags = TagMap::new();
    and.tag_results(&mut tags);

    let mut expected = BTreeMap::new();
    expected.insert("foo".to_string(), Ref::new_i64_node(234));
    expected.insert("bar".to_string(), Ref::new_i64_node(234));
    expected.insert("baz".to_string(), Ref::new_i64_node(234));
    assert_eq!(expected, tag_map(&tags));
}

#[test]
fn test_and_and_fixed_iterators() {
    let qs = Store::new();
    let fix1 = fixed(&[1, 2, 3, 4]);
    let fix2 = fixed(&[3, 4, 5]);
    let ands = Shape::And(And::new(vec![fix1, fix2]));

    let st = ands.stats(&qs);
    assert_eq!(st.unwrap().size, Size { value: 3, exact: true });

    let mut and = ands.iterate(&qs);

    assert!(and.next(&qs));
    assert_eq!(Ref::new_i64_node(3), and.result().unwrap());

    assert!(and.next(&qs));
    assert_eq!(Ref::new_i64_node(4), and.result().unwrap());

    assert!(!and.next(&qs));
}

#[test]
fn test_non_overlapping_fixed_iterators() {
    let qs = Store::new();
    let fix1 = fixed(&[1, 2, 3, 4]);
    let fix2 = fixed(&[5, 6, 7]);
    let ands = Shape::And(And::new(vec![fix1, fix2]));

    let st = ands.stats(&qs);
    assert_eq!(st.unwrap().size, Size { value: 3, exact: true });

    let mut and = ands.iterate(&qs);
    assert!(!and.next(&qs));
}

#[test]
fn test_all_iterators() {
    let qs = Store::new();
    let all1 = int_nodes(1, 5);
    let all2 = int_nodes(4, 10);
    let mut and = Shape::And(And::new(vec![all1, all2])).iterate(&qs);

    assert!(and.next(&qs));
    assert_eq!(Ref::new_i64_node(4), and.result().unwrap());

    assert!(and.next(&qs));
    assert_eq!(Ref::new_i64_node(5), and.result().unwrap());

    assert!(!and.next(&qs));
}

#[test]
fn test_and_iterator_err() {
    let qs = Store::new();
    let all_err = Error::new("Unique".to_string());

    let mut and = Shape::And(And::new(vec![all_err, int_nodes(1, 5)])).iterate(&qs);

    assert!(!and.next(&qs));
    assert_eq!(Some("Unique".to_string()), and.err());
}

#[test]
fn test_null_iterator_and() {
    let qs = Store::new();
    let all = int_nodes(1, 3);
    let null = Null::new();
    let mut a = Shape::And(And::new(vec![all, null]));
    let new_it = a.optimize(&qs);
    if new_it.is_none() {
        panic!("Didn't Change")
    }

    assert!(new_it.unwrap().is_null());
}

#[test]
fn test_reorder_with_tag() {
    let qs = Store::new();
    let all = fixed(&[3]);
    let all2 = fixed(&[3, 4, 5, 6]);
    let mut a = And::new(vec![]);
    a.add_sub_iterator(all2);
    a.add_sub_iterator(all);

    let result = Shape::And(a).optimize(&qs);
    assert!(result.is_some())
}

#[test]
fn test_and_statistics() {
    let qs = Store::new();
    let all = int_nodes(100, 300);
    let all2 = int_nodes(1, 30000);
    let mut a = And::new(vec![]);

    a.add_sub_iterator(all2);
    a.add_sub_iterator(all);

    let mut a = Shape::And(a);
    let stats1 = a.stats(&qs);
    let new_it = a.optimize(&qs);
    assert!(new_it.is_some());

    let stats2 = new_it.unwrap().stats(&qs);
    assert!(stats2.unwrap().next_cost <= stats1.unwrap().next_cost);
}

#[test]
fn and_of_no_iterator_optimizes_to_null() {
    let qs = Store::new();
    let mut a = Shape::And(And::new(vec![]));
    let r = a.optimize(&qs);
    assert!(r.unwrap().is_null());
}
