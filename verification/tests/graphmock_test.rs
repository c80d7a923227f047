use gizmo_graph_db::graph::graphmock::Store;
use gizmo_graph_db::graph::quad::{Delta, Direction, IgnoreOptions, Procedure, Quad, QuadStore};
use gizmo_graph_db::graph::refs::pre_fetched;
use gizmo_graph_db::graph::value::Value;
use gizmo_graph_db::query::gizmo;

fn v(s: &str) -> Value {
    Value::from_str(s)
}

fn quad(s: &str, p: &str, o: &str, l: Option<&str>) -> Quad {
    Quad::new(v(s), v(p), v(o), match l {
        Some(x) => v(x),
        None => Value::Undefined,
    })
}

#[test]
fn writing_to_a_memory_graph_appends_in_order() {
    let mut g = gizmo::new_memory_graph();
    let a = quad("<a>", "<p>", "<b>", None);
    let b = quad("<b>", "<p>", "<c>", Some("<g>"));
    assert!(g.s.write(vec![a.clone(), b.clone()]).is_ok());
    assert!(g.s.write(vec![a.clone()]).is_ok());
    assert_eq!(g.s.qs.data, vec![a.clone(), b, a]);
}

#[test]
fn mock_store_knows_values_in_any_place() {
    let qs = Store { data: vec![quad("<a>", "<p>", "<b>", Some("<g>"))] };
    for x in ["<a>", "<p>", "<b>", "<g>"] {
        assert_eq!(qs.value_of(&v(x)), Some(pre_fetched(v(x))));
    }
    assert!(qs.value_of(&v("<c>")).is_none());
    assert!(qs.value_of(&Value::Undefined).is_none());
}

#[test]
fn mock_store_refuses_to_delete_a_missing_quad() {
    let mut qs = Store { data: vec![quad("<a>", "<p>", "<b>", None)] };
    let opts = IgnoreOptions { ignore_dup: true, ignore_missing: true };
    let r = qs.apply_deltas(vec![Delta { quad: quad("<x>", "<p>", "<y>", None), action: Procedure::Delete }], &opts);
    assert_eq!(r, Err("quad not found".to_string()));
    let r = qs.apply_deltas(vec![Delta { quad: quad("<a>", "<p>", "<b>", None), action: Procedure::Delete }], &opts);
    assert!(r.is_ok());
    assert!(qs.data.is_empty());
}

#[test]
fn mock_store_counts_distinct_values_and_quads() {
    let qs = Store {
        data: vec![quad("<a>", "<p>", "<b>", None), quad("<b>", "<p>", "<c>", None)],
    };
    let st = qs.stats(true).unwrap();
    assert_eq!(st.quads.value, 2);
    // <a> <b> <c> <p>, and the missing label
    assert_eq!(st.nodes.value, 5);
}

#[test]
fn mock_store_follows_a_quad_to_its_corners() {
    let q = quad("<a>", "<p>", "<b>", None);
    let qs = Store { data: vec![q.clone()] };
    let all = qs.quads_all_iterator();
    let mut it = all.iterate(&qs);
    assert!(it.next(&qs));
    let r = it.result().unwrap();
    assert_eq!(qs.quad(&r), Some(q));
    assert_eq!(qs.quad_direction(&r, &Direction::Object), Some(pre_fetched(v("<b>"))));
}
