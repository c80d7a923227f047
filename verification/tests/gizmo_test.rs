use gizmo_graph_db::graph::quad::Quad;
use gizmo_graph_db::graph::value::Value;
use gizmo_graph_db::query::gizmo;
use gizmo_graph_db::query::gizmo::{HasObject, Tags, ValueFilters, Values};
use gizmo_graph_db::query::path::Via;

fn v(s: &str) -> Value {
    Value::from_str(s)
}

fn vals(list: &[&str]) -> Values {
    Values::List(list.iter().map(|s| v(s)).collect())
}

fn one(s: &str) -> Values {
    vals(&[s])
}

fn via(s: &str) -> Via {
    Via::Values(vec![v(s)])
}

fn tags(list: &[&str]) -> Tags {
    Tags::List(list.iter().map(|s| s.to_string()).collect())
}

fn quad(s: &str, p: &str, o: &str, l: Option<&str>) -> Quad {
    Quad::new(v(s), v(p), v(o), match l {
        Some(x) => v(x),
        None => Value::Undefined,
    })
}

fn strings(r: Vec<Value>) -> Vec<String> {
    r.iter().map(|x| x.to_string()).collect()
}

fn tag_of(m: &Vec<(String, Value)>, k: &str) -> String {
    for (key, val) in m {
        if key == k {
            return val.to_string();
        }
    }
    panic!("no tag {}", k)
}

fn sort_and_compare(a: &mut Vec<String>, b: &mut Vec<String>) -> bool {
    a.sort();
    b.sort();
    a == b
}

fn owned(list: &[&str]) -> Vec<String> {
    list.iter().map(|s| s.to_string()).collect()
}

#[test]
fn simple_query_tests() {
    let mut simple_graph = gizmo::new_memory_graph();
    let s = &mut simple_graph.s;
    s.write(vec![quad("<alice>", "<follows>", "<bob>", None)]).unwrap();
    s.write(vec![quad("<bob>", "<follows>", "<fred>", None)]).unwrap();
    s.write(vec![quad("<bob>", "<status>", "cool_person", None)]).unwrap();
    s.write(vec![quad("<dani>", "<follows>", "<bob>", None)]).unwrap();
    s.write(vec![quad("<charlie>", "<follows>", "<bob>", None)]).unwrap();
    s.write(vec![quad("<charlie>", "<follows>", "<dani>", None)]).unwrap();
    s.write(vec![quad("<dani>", "<follows>", "<greg>", None)]).unwrap();
    s.write(vec![quad("<dani>", "<status>", "cool_person", None)]).unwrap();
    s.write(vec![quad("<emily>", "<follows>", "<fred>", None)]).unwrap();
    s.write(vec![quad("<fred>", "<follows>", "<greg>", None)]).unwrap();
    s.write(vec![quad("<greg>", "<status>", "cool_person", None)]).unwrap();
    s.write(vec![quad("<predicates>", "<are>", "<follows>", None)]).unwrap();
    s.write(vec![quad("<predicates>", "<are>", "<status>", None)]).unwrap();
    s.write(vec![quad("<emily>", "<status>", "smart_person", Some("<smart_graph>"))]).unwrap();
    s.write(vec![quad("<greg>", "<status>", "smart_person", Some("<smart_graph>"))]).unwrap();

    let g = &simple_graph.g;
    let s = &mut simple_graph.s;

    // a single vertex
    let mut r = strings(g.v(one("<alice>")).all_values(s));
    let mut f = owned(&["<alice>"]);
    r.sort();
    f.sort();
    assert_eq!(r, f);

    // out
    let mut r = strings(g.v(one("<alice>")).out(via("<follows>"), Tags::NoTags).all_values(s));
    assert!(sort_and_compare(&mut r, &mut owned(&["<bob>"])));

    // out (any)
    let mut r = strings(g.v(one("<bob>")).out(Via::All, Tags::NoTags).all_values(s));
    assert!(sort_and_compare(&mut r, &mut owned(&["<fred>", "cool_person"])));

    // in
    let mut r = strings(g.v(one("<bob>")).in_(via("<follows>"), Tags::NoTags).all_values(s));
    assert!(sort_and_compare(&mut r, &mut owned(&["<alice>", "<charlie>", "<dani>"])));

    // in (any)
    let mut r = strings(g.v(one("<bob>")).in_(Via::All, Tags::NoTags).all_values(s));
    assert!(sort_and_compare(&mut r, &mut owned(&["<alice>", "<charlie>", "<dani>"])));

    // filter by comparisons
    let mut r = strings(g.v(one("<bob>")).in_(via("<follows>"), Tags::NoTags)
        .filter(ValueFilters { filters: vec![gizmo::gt(v("<c>")), gizmo::lt(v("<d>"))] }).all_values(s));
    assert!(sort_and_compare(&mut r, &mut owned(&["<charlie>"])));

    // filter by a regular expression on strings
    let mut r = strings(g.v(one("<bob>")).in_(via("<follows>"), Tags::NoTags)
        .filter(ValueFilters { filters: vec![gizmo::regex("ar?li.*e".to_string(), false).unwrap()] }).all_values(s));
    assert!(sort_and_compare(&mut r, &mut owned(&[])));

    // filter by wildcards
    let mut r = strings(g.v(one("<bob>")).in_(via("<follows>"), Tags::NoTags)
        .filter(ValueFilters { filters: vec![gizmo::like("al%".to_string())] }).all_values(s));
    assert!(sort_and_compare(&mut r, &mut owned(&["<alice>"])));

    let mut r = strings(g.v(one("<bob>")).in_(via("<follows>"), Tags::NoTags)
        .filter(ValueFilters { filters: vec![gizmo::like("a?i%e".to_string())] }).all_values(s));
    assert!(sort_and_compare(&mut r, &mut owned(&["<alice>"])));

    // filter by a regular expression on IRIs too
    let mut r = strings(g.v(one("<bob>")).in_(via("<follows>"), Tags::NoTags)
        .filter(ValueFilters { filters: vec![gizmo::regex("ar?li.*e".to_string(), true).unwrap()] }).all_values(s));
    assert!(sort_and_compare(&mut r, &mut owned(&["<charlie>", "<alice>"])));

    let mut r = strings(g.v(one("<bob>")).in_(via("<follows>"), Tags::NoTags)
        .filter(ValueFilters { filters: vec![gizmo::regex("ar?li.*e".to_string(), true).unwrap(), gizmo::gt(v("<c>"))] })
        .all_values(s));
    assert!(sort_and_compare(&mut r, &mut owned(&["<charlie>"])));

    // both, predicates tagged
    let mut r: Vec<String> = g.v(one("<fred>")).both(Via::All, tags(&["pred"])).all(s)
        .iter().map(|x| tag_of(x, "pred")).collect();
    assert!(sort_and_compare(&mut r, &mut owned(&["<follows>", "<follows>", "<follows>"])));

    // tag and back
    let mut r = strings(g.v(one("<bob>")).in_(via("<follows>"), Tags::NoTags).tag(tags(&["foo"]))
        .out(via("<status>"), Tags::NoTags).is(one("cool_person")).back("foo".to_string()).all_values(s));
    assert!(sort_and_compare(&mut r, &mut owned(&["<dani>"])));

    let x = g.v(one("<charlie>")).out(via("<follows>"), Tags::NoTags).tag(tags(&["foo"]))
        .out(via("<status>"), Tags::NoTags).is(one("cool_person")).back("foo".to_string());
    let mut r = strings(x.in_(via("<follows>"), Tags::NoTags).is(one("<dani>")).back("foo".to_string()).all_values(s));
    assert!(sort_and_compare(&mut r, &mut owned(&["<bob>"])));

    let mut r: Vec<String> = g.v(one("<emily>")).out(via("<follows>"), Tags::NoTags).as_(tags(&["f"]))
        .out(via("<follows>"), Tags::NoTags).out(via("<status>"), Tags::NoTags).is(one("cool_person"))
        .back("f".to_string()).in_(via("<follows>"), Tags::NoTags).in_(via("<follows>"), Tags::NoTags)
        .as_(tags(&["acd"])).out(via("<status>"), Tags::NoTags).is(one("cool_person")).back("f".to_string())
        .all(s).iter().map(|x| tag_of(x, "acd")).collect();
    let mut f = owned(&["<dani>"]);
    r.sort();
    f.sort();
    assert_eq!(r, f);

    // except
    let mut r = strings(g.v(vals(&["<alice>", "<bob>"])).except(&g.v(one("<alice>"))).all_values(s));
    assert!(sort_and_compare(&mut r, &mut owned(&["<bob>"])));

    let mut r = strings(g.v(vals(&["<alice>", "<bob>", "<charlie>"])).except(&g.v(one("<bob>")))
        .except(&g.v(one("<charlie>"))).all_values(s));
    assert!(sort_and_compare(&mut r, &mut owned(&["<alice>"])));

    // follow
    let grandfollows = g.m().out(via("<follows>"), Tags::NoTags).out(via("<follows>"), Tags::NoTags);
    let mut r = strings(g.v(one("<charlie>")).follow(&grandfollows).all_values(s));
    assert!(sort_and_compare(&mut r, &mut owned(&["<greg>", "<fred>", "<bob>"])));

    // follow backwards
    let mut r = strings(g.v(one("<fred>")).follow_r(&grandfollows).all_values(s));
    assert!(sort_and_compare(&mut r, &mut owned(&["<alice>", "<charlie>", "<dani>"])));

    // and
    let follows = |x: &str| g.v(one(x)).out(via("<follows>"), Tags::NoTags);
    let mut r = strings(follows("<dani>").and(&follows("<charlie>")).all_values(s));
    assert!(sort_and_compare(&mut r, &mut owned(&["<bob>"])));

    let gfollows = |x: &str| g.v(one(x)).follow(&grandfollows);
    let mut r = strings(gfollows("<alice>").and(&gfollows("<charlie>")).all_values(s));
    assert!(sort_and_compare(&mut r, &mut owned(&["<fred>"])));

    let mut r = strings(gfollows("<emily>").and(&gfollows("<charlie>")).and(&gfollows("<bob>")).all_values(s));
    assert!(sort_and_compare(&mut r, &mut owned(&["<greg>"])));

    let mut r = strings(g.v(one("<greg>")).follow_r(&grandfollows)
        .intersect(&g.v(one("<fred>")).follow_r(&grandfollows)).all_values(s));
    assert!(sort_and_compare(&mut r, &mut owned(&["<charlie>"])));

    let gfollowers = g.m().in_(via("<follows>"), Tags::NoTags).in_(via("<follows>"), Tags::NoTags);
    let cool = |x: &str| g.v(one(x)).as_(tags(&["a"])).out(via("<status>"), Tags::NoTags).is(one("cool_person"))
        .back("a".to_string());
    let mut r = strings(cool("<greg>").follow(&gfollowers).intersect(&cool("<bob>")).follow(&gfollowers).all_values(s));
    assert!(sort_and_compare(&mut r, &mut owned(&["<charlie>"])));

    // or
    let mut r = strings(g.v(one("<bob>")).out(via("<follows>"), Tags::NoTags)
        .or(&g.v(Values::NoValues).has(via("<status>"), HasObject::Values(one("cool_person")))).all_values(s));
    assert!(sort_and_compare(&mut r, &mut owned(&["<fred>", "<bob>", "<greg>", "<dani>"])));

    // has
    let mut r = strings(g.v(Values::NoValues).has(via("<status>"), HasObject::Values(one("cool_person"))).all_values(s));
    assert!(sort_and_compare(&mut r, &mut owned(&["<greg>", "<dani>", "<bob>"])));

    let mut r = strings(g.v(Values::NoValues).has_r(via("<status>"), HasObject::Values(one("<bob>"))).all_values(s));
    assert!(sort_and_compare(&mut r, &mut owned(&["cool_person"])));

    let mut r = strings(g.v(Values::NoValues).has(via("<status>"), HasObject::Values(one("cool_person")))
        .has(via("<follows>"), HasObject::Values(one("<fred>"))).all_values(s));
    assert!(sort_and_compare(&mut r, &mut owned(&["<bob>"])));

    let mut r = strings(g.v(Values::NoValues)
        .has(via("<follows>"), HasObject::ValueFilters(ValueFilters { filters: vec![gizmo::gt(v("<f>"))] })).all_values(s));
    assert!(sort_and_compare(&mut r, &mut owned(&["<bob>", "<dani>", "<emily>", "<fred>"])));

    // limit and skip
    let mut r = strings(g.v(Values::NoValues).has(via("<status>"), HasObject::Values(one("cool_person"))).limit(2).all_values(s));
    assert!(sort_and_compare(&mut r, &mut owned(&["<bob>", "<dani>"])));

    let mut r = strings(g.v(Values::NoValues).has(via("<status>"), HasObject::Values(one("cool_person"))).skip(2).all_values(s));
    assert!(sort_and_compare(&mut r, &mut owned(&["<greg>"])));

    let mut r = strings(g.v(Values::NoValues).has(via("<status>"), HasObject::Values(one("cool_person"))).skip(1).limit(1)
        .all_values(s));
    assert!(sort_and_compare(&mut r, &mut owned(&["<dani>"])));

    // count
    let c = g.v(Values::NoValues).has(via("<status>"), HasObject::Values(Values::NoValues)).count(s);
    assert_eq!(c, 5);

    // save
    let mut r: Vec<String> = g.v(Values::NoValues).save("<status>".to_string(), Some("somecool".to_string())).all(s)
        .iter().map(|x| tag_of(x, "somecool")).collect();
    assert!(sort_and_compare(&mut r, &mut owned(&["cool_person", "cool_person", "cool_person", "smart_person", "smart_person"])));

    let mut r: Vec<String> = g.v(Values::NoValues).save("<status>".to_string(), None).all(s)
        .iter().map(|x| tag_of(x, "<status>")).collect();
    let mut f = owned(&["cool_person", "cool_person", "cool_person", "smart_person", "smart_person"]);
    r.sort();
    f.sort();
    assert_eq!(r, f);

    let mut r: Vec<String> = g.v(one("cool_person")).save_r("<status>".to_string(), Some("who".to_string())).all(s)
        .iter().map(|x| tag_of(x, "who")).collect();
    assert!(sort_and_compare(&mut r, &mut owned(&["<greg>", "<dani>", "<bob>"])));

    // predicates tagged on out
    let mut r: Vec<String> = g.v(one("<dani>")).out(Via::All, tags(&["pred"])).all(s)
        .iter().map(|x| tag_of(x, "pred")).collect();
    assert!(sort_and_compare(&mut r, &mut owned(&["<follows>", "<follows>", "<status>"])));

    let mut r: Vec<String> = g.v(one("<dani>")).out(Via::All, tags(&["pred", "foo", "bar"])).all(s)
        .iter().map(|x| tag_of(x, "foo")).collect();
    assert!(sort_and_compare(&mut r, &mut owned(&["<follows>", "<follows>", "<status>"])));

    // out along several predicates
    let mut r = strings(g.v(one("<dani>")).out(Via::Values(vec![v("<follows>"), v("<status>")]), Tags::NoTags).all_values(s));
    assert!(sort_and_compare(&mut r, &mut owned(&["<bob>", "<greg>", "cool_person"])));

    // out along the predicates a path reaches
    let mut r = strings(g.v(one("<dani>")).out(Via::Path(g.v(one("<follows>")).path), tags(&["pred"])).all_values(s));
    assert!(sort_and_compare(&mut r, &mut owned(&["<bob>", "<greg>"])));

    // predicates
    let mut r = strings(g.v(one("<bob>")).in_predicates().all_values(s));
    assert!(sort_and_compare(&mut r, &mut owned(&["<follows>"])));

    let mut r: Vec<String> = g.v(one("<bob>")).save_in_predicates("pred".to_string()).all(s)
        .iter().map(|x| tag_of(x, "pred")).collect();
    assert!(sort_and_compare(&mut r, &mut owned(&["<follows>", "<follows>", "<follows>"])));

    // labels
    let mut r = strings(g.v(Values::NoValues).labels().all_values(s));
    assert!(sort_and_compare(&mut r, &mut owned(&["<smart_graph>"])));

    let mut r = strings(g.v(Values::NoValues).in_predicates().all_values(s));
    assert!(sort_and_compare(&mut r, &mut owned(&["<are>", "<follows>", "<status>"])));

    let mut r = strings(g.v(Values::NoValues).out_predicates().all_values(s));
    assert!(sort_and_compare(&mut r, &mut owned(&["<are>", "<follows>", "<status>"])));

    // label context
    let mut r = strings(g.v(one("<greg>")).label_context(via("<smart_graph>"), Tags::NoTags)
        .out(via("<status>"), Tags::NoTags).all_values(s));
    assert!(sort_and_compare(&mut r, &mut owned(&["smart_person"])));
}
