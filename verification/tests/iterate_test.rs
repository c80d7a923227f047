use gizmo_graph_db::graph::graphmock::Store;
use gizmo_graph_db::graph::iterator::fixed::Fixed;
use gizmo_graph_db::graph::iterator::iterate::{each_results, each_tags};
use gizmo_graph_db::graph::iterator::or::Or;
use gizmo_graph_db::graph::iterator::{Error, Null, Shape};
use gizmo_graph_db::graph::linksto::LinksTo;
use gizmo_graph_db::graph::quad::{Direction, Quad, QuadStore};
use gizmo_graph_db::graph::value::Value;
use gizmo_graph_db::graph::refs::Ref;

fn fixed(list: &[i64]) -> Shape {
    Shape::Fixed(Fixed::new(list.iter().map(|n| Ref::new_i64_node(*n)).collect()))
}

#[test]
fn test_each_results_fixed_in_order() {
    let qs = Store::new();
    let got = each_results(&qs, &fixed(&[5, 3, 9]), 0);
    let want: Vec<Ref> = [5, 3, 9].iter().map(|n| Ref::new_i64_node(*n)).collect();
    assert_eq!(want, got);
}

#[test]
fn test_each_results_fixed_limited() {
    let qs = Store::new();
    let got = each_results(&qs, &fixed(&[5, 3, 9]), 2);
    let want: Vec<Ref> = [5, 3].iter().map(|n| Ref::new_i64_node(*n)).collect();
    assert_eq!(want, got);
}

#[test]
fn test_each_results_null_is_empty() {
    let qs = Store::new();
    assert!(each_results(&qs, &Shape::Null(Null {}), 10).is_empty());
}

#[test]
fn test_each_tags_fixed_one_empty_map_per_value() {
    let qs = Store::new();
    let got = each_tags(&qs, &fixed(&[1, 2, 3, 4]), 3);
    assert_eq!(3, got.len());
    assert!(got.iter().all(|t| t.entries.is_empty()));
}

#[test]
fn test_or_contains_moves_to_accepting_index() {
    let qs = Store::new();
    let or = Or::new(vec![fixed(&[1, 2]), fixed(&[3])]);
    let mut c = Shape::Or(or).lookup(&qs);
    assert!(c.contains(&qs, &Ref::new_i64_node(3)));
    assert!(!c.contains(&qs, &Ref::new_i64_node(7)));
}

#[test]
fn test_links_to_size_of_fixed_primary_is_exact_sum() {
    let v = |x: &str| Value::from_str(x);
    let qs = Store {
        data: vec![
            Quad::new(v("a"), v("p"), v("x"), v("")),
            Quad::new(v("b"), v("p"), v("x"), v("")),
            Quad::new(v("c"), v("p"), v("y"), v("")),
        ],
    };
    let x = qs.value_of(&v("x")).unwrap();
    let y = qs.value_of(&v("y")).unwrap();
    let lt = LinksTo::new(Shape::Fixed(Fixed::new(vec![x, y])), Direction::Object);
    let size = lt.get_size(&qs).unwrap();
    assert_eq!(3, size.value);
    assert!(size.exact);
}

#[test]
fn test_error_shape_reports_its_text() {
    let qs = Store::new();
    let mut sc = Error::new("broken".to_string()).iterate(&qs);
    assert!(!sc.next(&qs));
    assert_eq!(Some("broken".to_string()), sc.err());
    assert_eq!(Err("broken".to_string()), sc.close());
}
