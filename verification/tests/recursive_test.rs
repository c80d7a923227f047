use gizmo_graph_db::graph::graphmock::Store;
use gizmo_graph_db::graph::hasa::HasA;
use gizmo_graph_db::graph::iterator::and::And;
use gizmo_graph_db::graph::iterator::fixed::Fixed;
use gizmo_graph_db::graph::iterator::recursive::{recursive_costs, Morphism, Recursive};
use gizmo_graph_db::graph::iterator::save::tag;
use gizmo_graph_db::graph::iterator::tags::TagMap;
use gizmo_graph_db::graph::iterator::{Costs, Shape};
use gizmo_graph_db::graph::linksto::LinksTo;
use gizmo_graph_db::graph::quad::{Direction, Quad, QuadStore};
use gizmo_graph_db::graph::refs::{pre_fetched, Size};
use gizmo_graph_db::graph::value::Value;

#[derive(Clone)]
struct SingleHop {
    pred: String,
}

impl Morphism for SingleHop {
    fn morph(&self, shape: Shape) -> Shape {
        let fixed = Fixed::new(vec![pre_fetched(Value::from_str(&self.pred))]);
        let pred_lto = Shape::LinksTo(LinksTo::new(Shape::Fixed(fixed), Direction::Predicate));
        let lto = Shape::LinksTo(LinksTo::new(shape, Direction::Subject));
        let mut and = And::new(vec![]);
        and.add_sub_iterator(lto);
        and.add_sub_iterator(pred_lto);
        Shape::HasA(HasA::new(Shape::And(and), Direction::Object))
    }
}

fn q(s: &str, p: &str, o: &str, l: &str) -> Quad {
    Quad::new(Value::from_str(s), Value::from_str(p), Value::from_str(o), Value::from_str(l))
}

fn rec_test_qs() -> Store {
    Store {
        data: vec![
            q("alice", "parent", "bob", ""),
            q("bob", "parent", "charlie", ""),
            q("charlie", "parent", "dani", ""),
            q("charlie", "parent", "bob", ""),
            q("dani", "parent", "emily", ""),
            q("fred", "follows", "alice", ""),
            q("greg", "follows", "alice", ""),
        ],
    }
}

fn hop(pred: &str) -> SingleHop {
    SingleHop { pred: pred.to_string() }
}

fn alice() -> Shape {
    Shape::Fixed(Fixed::new(vec![pre_fetched(Value::from_str("alice"))]))
}

fn person_of(t: &TagMap) -> String {
    let mut found = None;
    for (k, v) in t.entries.iter() {
        if k == "person" {
            found = Some(v.k.to_string());
        }
    }
    found.unwrap()
}

#[test]
fn test_recursive_next() {
    let qs = rec_test_qs();
    let mut r = Recursive::new(alice(), hop("parent"), 0).iterate(&qs);

    let mut expected = vec!["bob", "charlie", "dani", "emily"];
    let mut got = Vec::new();
    while r.next(&qs) {
        got.push(r.result().unwrap().key().unwrap().to_string());
    }

    expected.sort();
    got.sort();

    assert_eq!(expected, got);
}

#[test]
fn test_recursive_contains() {
    let qs = rec_test_qs();
    let mut r = Recursive::new(alice(), hop("parent"), 0).lookup(&qs);
    let values = vec!["charlie", "bob", "not"];
    let expected = vec![true, true, false];

    for i in 0..values.len() {
        let v = values[i];

        let value = qs.value_of(&Value::from_str(v));
        let ok = value.is_some() && r.contains(&qs, value.as_ref().unwrap());

        assert_eq!(expected[i], ok);
    }
}

#[test]
fn test_recursive_next_path() {
    let qs = rec_test_qs();

    let start = qs.nodes_all_iterator();
    let start = tag(start, "person".to_string());

    let it = hop("follows").morph(start);

    let mut and = And::new(vec![]);
    and.add_sub_iterator(it);
    and.add_sub_iterator(alice());

    let mut r = Recursive::new(Shape::And(and), hop("parent"), 0).iterate(&qs);

    let mut expected = vec!["fred", "fred", "fred", "fred", "greg", "greg", "greg", "greg"];
    let mut got = Vec::new();

    while r.next(&qs) {
        let mut res = TagMap::new();
        r.tag_results(&mut res);
        got.push(person_of(&res));
        while r.next_path() {
            let mut res = TagMap::new();
            r.tag_results(&mut res);
            got.push(person_of(&res));
        }
    }

    expected.sort();
    got.sort();

    assert_eq!(expected, got);
}

#[test]
fn recursive_walk_stops_at_its_depth_limit() {
    let qs = rec_test_qs();
    let mut r = Recursive::new(alice(), hop("parent"), 2).iterate(&qs);
    let mut got = Vec::new();
    while r.next(&qs) {
        got.push((r.result().unwrap().key().unwrap().to_string(), r.result_depth));
    }
    assert_eq!(vec![("bob".to_string(), 1), ("charlie".to_string(), 2)], got);
}

#[test]
fn recursive_walk_tags_depths() {
    let qs = rec_test_qs();
    let mut rec = Recursive::new(alice(), hop("parent"), 0);
    rec.add_depth_tag("depth".to_string());
    let mut r = rec.iterate(&qs);
    let mut got = Vec::new();
    while r.next(&qs) {
        let mut res = TagMap::new();
        r.tag_results(&mut res);
        let d = res.entries.iter().find(|(k, _)| k == "depth").unwrap().1.k.to_string();
        got.push((r.result().unwrap().key().unwrap().to_string(), d));
    }
    got.sort();
    assert_eq!(
        vec![
            ("bob".to_string(), "1".to_string()),
            ("charlie".to_string(), "2".to_string()),
            ("dani".to_string(), "3".to_string()),
            ("emily".to_string(), "4".to_string()),
        ],
        got
    );
}

#[test]
fn recursive_costs_follow_the_formula() {
    let sub = Costs { contains_cost: 7, next_cost: 2, size: Size { value: 3, exact: true } };
    let fanout = Costs { contains_cost: 1, next_cost: 5, size: Size { value: 1, exact: true } };
    let c = recursive_costs(sub, fanout);
    assert_eq!(c.next_cost, 7);
    assert_eq!(c.size, Size { value: 59049, exact: false });
    assert_eq!(c.contains_cost, 7 * 5904 + 7);

    let big = Costs { contains_cost: 0, next_cost: 0, size: Size { value: 100, exact: true } };
    assert_eq!(recursive_costs(big, fanout).size.value, i64::MAX);
}
