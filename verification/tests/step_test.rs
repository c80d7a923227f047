use gizmo_graph_db::graph::graphmock::Store;
use gizmo_graph_db::graph::iterator::and::And;
use gizmo_graph_db::graph::iterator::count::Count;
use gizmo_graph_db::graph::iterator::fixed::Fixed;
use gizmo_graph_db::graph::iterator::or::Or;
use gizmo_graph_db::graph::iterator::skip::Skip;
use gizmo_graph_db::graph::iterator::unique::Unique;
use gizmo_graph_db::graph::iterator::{Error, Shape};
use gizmo_graph_db::graph::memstore::iterator::{MemStoreIteratorContains, MemStoreIteratorNext};
use gizmo_graph_db::graph::quad::Direction;
use gizmo_graph_db::graph::refs::{pre_fetched, Content, Ref};
use gizmo_graph_db::graph::value::Value;

fn fixed(list: &[i64]) -> Shape {
    Shape::Fixed(Fixed::new(list.iter().map(|n| Ref::new_i64_node(*n)).collect()))
}

fn listed(s: &Shape, qs: &Store) -> Vec<i64> {
    let mut res = Vec::new();
    let mut it = s.iterate(qs);
    while it.next(qs) {
        match it.result().unwrap().content {
            Content::Value(Value::Number(n)) => res.push(n.as_i64().unwrap()),
            _ => panic!("not a number"),
        }
    }
    res
}

#[test]
fn count_reports_no_error_even_over_a_failed_shape() {
    let qs = Store::new();
    let c = Shape::Count(Count::new(Error::new("broken".to_string()), false));
    let mut it = c.iterate(&qs);
    assert!(it.next(&qs));
    assert_eq!(pre_fetched(Value::from_i64(0)), it.result().unwrap());
    assert_eq!(None, it.err());
    let ix = c.lookup(&qs);
    assert_eq!(None, ix.err());
}

#[test]
fn count_of_an_inexact_shape_walks_it() {
    let qs = Store::new();
    let u = Shape::Unique(Unique::new(fixed(&[1, 1, 2, 2, 3])));
    assert!(!u.stats(&qs).unwrap().size.exact);
    let c = Shape::Count(Count::new(u, false));
    let mut it = c.iterate(&qs);
    assert!(it.next(&qs));
    assert_eq!(pre_fetched(Value::from_i64(3)), it.result().unwrap());
    assert!(!it.next(&qs));
}

#[test]
fn skip_drops_exactly_the_first_results() {
    let qs = Store::new();
    assert_eq!(vec![3, 4, 5], listed(&Shape::Skip(Skip::new(fixed(&[1, 2, 3, 4, 5]), 2)), &qs));
    assert_eq!(Vec::<i64>::new(), listed(&Shape::Skip(Skip::new(fixed(&[1, 2]), 5)), &qs));
}

#[test]
fn skip_check_passes_over_the_first_match_only() {
    let qs = Store::new();
    let s = Shape::Skip(Skip::new(fixed(&[1, 2, 3]), 1));
    let mut ix = s.lookup(&qs);
    assert!(!ix.contains(&qs, &Ref::new_i64_node(2)));
    assert!(ix.contains(&qs, &Ref::new_i64_node(2)));
    assert!(!ix.contains(&qs, &Ref::new_i64_node(7)));
}

#[test]
fn union_stops_at_the_error_of_a_sub_scanner() {
    let qs = Store::new();
    let o = Shape::Or(Or::new(vec![fixed(&[1]), Error::new("broken".to_string()), fixed(&[2])]));
    let mut it = o.iterate(&qs);
    assert!(it.next(&qs));
    assert!(!it.next(&qs));
    assert_eq!(Some("broken".to_string()), it.err());
}

#[test]
fn union_lists_its_sub_scanners_one_after_the_other() {
    let qs = Store::new();
    let o = Shape::Or(Or::new(vec![fixed(&[3, 1]), fixed(&[]), fixed(&[2])]));
    assert_eq!(vec![3, 1, 2], listed(&o, &qs));
}

#[test]
fn intersection_check_needs_every_index() {
    let qs = Store::new();
    let a = Shape::And(And::new(vec![fixed(&[1, 2, 3]), fixed(&[2, 3, 4])]));
    let mut ix = a.lookup(&qs);
    assert!(ix.contains(&qs, &Ref::new_i64_node(2)));
    assert!(!ix.contains(&qs, &Ref::new_i64_node(1)));
    assert!(!ix.contains(&qs, &Ref::new_i64_node(4)));
    assert!(ix.contains(&qs, &Ref::new_i64_node(3)));
}

#[test]
fn memstore_walk_and_check_start_empty() {
    let mut n = MemStoreIteratorNext::new(vec![4, 7], Direction::Subject);
    assert_eq!(None, n.cur);
    assert!(n.next());
    assert_eq!(Some(4), n.cur);
    assert!(n.next());
    assert_eq!(Some(7), n.cur);
    assert!(!n.next());
    let c = MemStoreIteratorContains::new(vec![4, 7], Direction::Object);
    assert_eq!(None, c.cur);
    assert_eq!(vec![4, 7], c.quad_ids);
}
