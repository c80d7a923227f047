use gizmo_graph_db::graph::value::Value;
use gizmo_graph_db::query::morphism::Morphism;
use gizmo_graph_db::query::path::{Path, Via};

fn kind(m: &Morphism) -> &'static str {
    match m {
        Morphism::Is(_) => "is",
        Morphism::In(_) => "in",
        Morphism::Out(_) => "out",
        Morphism::Unique(_) => "unique",
        _ => "other",
    }
}

#[test]
fn reversing_a_path_reverses_its_steps_and_swaps_in_and_out() {
    let mut p = Path::start_path(vec![Value::from_str("<alice>")]);
    p.out_with_tags(vec![], Via::Values(vec![Value::from_str("<follows>")]));
    p.unique();
    p.in_with_tags(vec![], Via::All);
    let r = p.reverse();
    let kinds: Vec<&str> = r.stack.iter().map(kind).collect();
    assert_eq!(kinds, vec!["out", "unique", "in", "is"]);
    let rr = r.reverse();
    let kinds2: Vec<&str> = rr.stack.iter().map(kind).collect();
    let kinds0: Vec<&str> = p.stack.iter().map(kind).collect();
    assert_eq!(kinds2, kinds0);
}
