use gizmo_graph_db::graph::memstore::store::MemStore;
use gizmo_graph_db::graph::quad::{Delta, IgnoreOptions, Procedure, Quad, QuadStore, QuadWriter};
use gizmo_graph_db::graph::refs::Size;
use gizmo_graph_db::graph::value::Value;
use gizmo_graph_db::query::gizmo::{Graph, HasObject, Session, Tags, Values};
use gizmo_graph_db::query::path::Via;

fn v(s: &str) -> Value {
    Value::from_str(s)
}

fn quad(s: &str, p: &str, o: &str, l: Option<&str>) -> Quad {
    Quad::new(v(s), v(p), v(o), match l {
        Some(x) => v(x),
        None => Value::Undefined,
    })
}

fn one(s: &str) -> Values {
    Values::List(vec![v(s)])
}

fn via(s: &str) -> Via {
    Via::Values(vec![v(s)])
}

fn sorted(r: Vec<Value>) -> Vec<String> {
    let mut out: Vec<String> = r.iter().map(|x| x.to_string()).collect();
    out.sort();
    out
}

fn owned(list: &[&str]) -> Vec<String> {
    let mut out: Vec<String> = list.iter().map(|s| s.to_string()).collect();
    out.sort();
    out
}

fn simple_session() -> Session<MemStore> {
    let mut s = Session {
        qs: MemStore::new(),
        qw: QuadWriter::new(IgnoreOptions { ignore_dup: true, ignore_missing: true }),
        limit: -1,
    };
    let data = vec![
        quad("<alice>", "<follows>", "<bob>", None),
        quad("<bob>", "<follows>", "<fred>", None),
        quad("<bob>", "<status>", "cool_person", None),
        quad("<dani>", "<follows>", "<bob>", None),
        quad("<charlie>", "<follows>", "<bob>", None),
        quad("<charlie>", "<follows>", "<dani>", None),
        quad("<dani>", "<follows>", "<greg>", None),
        quad("<dani>", "<status>", "cool_person", None),
        quad("<emily>", "<follows>", "<fred>", None),
        quad("<fred>", "<follows>", "<greg>", None),
        quad("<greg>", "<status>", "cool_person", None),
        quad("<predicates>", "<are>", "<follows>", None),
        quad("<predicates>", "<are>", "<status>", None),
        quad("<emily>", "<status>", "smart_person", Some("<smart_graph>")),
        quad("<greg>", "<status>", "smart_person", Some("<smart_graph>")),
    ];
    s.write(data).unwrap();
    s
}

#[test]
fn memstore_counts_nodes_and_quads() {
    let s = simple_session();
    let st = s.qs.stats(true).unwrap();
    assert_eq!(st.quads, Size { value: 15, exact: true });
    // alice bob charlie dani emily fred greg predicates, follows status are,
    // cool_person smart_person, smart_graph
    assert_eq!(st.nodes, Size { value: 14, exact: true });
}

#[test]
fn memstore_ignores_a_duplicate_when_asked() {
    let mut s = simple_session();
    s.write(vec![quad("<alice>", "<follows>", "<bob>", None)]).unwrap();
    assert_eq!(s.qs.stats(true).unwrap().quads.value, 15);
}

#[test]
fn memstore_reports_duplicates_and_missing_quads() {
    let mut qs = MemStore::new();
    let strict = IgnoreOptions { ignore_dup: false, ignore_missing: false };
    let add = |q: Quad| Delta { quad: q, action: Procedure::Add };
    let del = |q: Quad| Delta { quad: q, action: Procedure::Delete };
    assert!(qs.apply_deltas(vec![add(quad("<a>", "<p>", "<b>", None))], &strict).is_ok());
    assert_eq!(
        qs.apply_deltas(vec![add(quad("<a>", "<p>", "<b>", None))], &strict),
        Err("ErrQuadExists".to_string())
    );
    assert_eq!(
        qs.apply_deltas(vec![del(quad("<a>", "<p>", "<c>", None))], &strict),
        Err("ErrQuadNotExist".to_string())
    );
    // a refused batch changes nothing
    assert_eq!(
        qs.apply_deltas(vec![add(quad("<x>", "<p>", "<y>", None)), del(quad("<a>", "<p>", "<c>", None))], &strict),
        Err("ErrQuadNotExist".to_string())
    );
    assert_eq!(qs.stats(true).unwrap().quads.value, 1);
    assert!(qs.apply_deltas(vec![del(quad("<a>", "<p>", "<b>", None))], &strict).is_ok());
    assert_eq!(qs.stats(true).unwrap().quads.value, 0);
}

#[test]
fn memstore_names_what_it_stores() {
    let s = simple_session();
    let r = s.qs.value_of(&v("<alice>")).unwrap();
    assert_eq!(s.qs.name_of(&r), Some(v("<alice>")));
    assert!(s.qs.value_of(&v("<nobody>")).is_none());
}

#[test]
fn memstore_answers_queries() {
    let mut s = simple_session();
    let g = Graph::new();

    assert_eq!(sorted(g.v(one("<alice>")).out(via("<follows>"), Tags::NoTags).all_values(&mut s)), owned(&["<bob>"]));
    assert_eq!(
        sorted(g.v(one("<bob>")).out(Via::All, Tags::NoTags).all_values(&mut s)),
        owned(&["<fred>", "cool_person"])
    );
    assert_eq!(
        sorted(g.v(one("<bob>")).in_(via("<follows>"), Tags::NoTags).all_values(&mut s)),
        owned(&["<alice>", "<charlie>", "<dani>"])
    );
    assert_eq!(
        sorted(
            g.v(Values::NoValues)
                .has(via("<status>"), HasObject::Values(one("cool_person")))
                .all_values(&mut s)
        ),
        owned(&["<bob>", "<dani>", "<greg>"])
    );
    assert_eq!(
        sorted(
            g.v(one("<greg>"))
                .label_context(via("<smart_graph>"), Tags::NoTags)
                .out(via("<status>"), Tags::NoTags)
                .all_values(&mut s)
        ),
        owned(&["smart_person"])
    );
}
