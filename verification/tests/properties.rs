use arrdf::Graph;
use arrdf::HashGraph;
use arrdf::Node;

fn three_triples() -> (Node, Node, Node, Node, Node, Node, HashGraph) {
    let a = Node::from("urn:props:a");
    let b = Node::from("urn:props:b");
    let c = Node::blank();
    let p = Node::from("urn:props:p");
    let q = Node::from("urn:props:q");
    let r = Node::from("urn:props:r");

    let mut graph = HashGraph::new();
    graph.insert(a.clone(), p.clone(), b.clone());
    graph.insert(b.clone(), q.clone(), c.clone());
    graph.insert(c.clone(), r.clone(), a.clone());
    (a, b, c, p, q, r, graph)
}

#[test]
fn self_relations() {
    let (_, _, _, _, _, _, graph) = three_triples();

    // Every graph is a subset and superset of itself; a non-empty graph is
    // not disjoint from itself, the empty graph is.
    assert!(arrdf::set::is_subset(&graph, &graph));
    assert!(arrdf::set::is_superset(&graph, &graph));
    assert!(!arrdf::set::is_disjoint(&graph, &graph));

    let empty = HashGraph::new();
    assert!(arrdf::set::is_subset(&empty, &empty));
    assert!(arrdf::set::is_superset(&empty, &empty));
    assert!(arrdf::set::is_disjoint(&empty, &empty));
}

#[test]
fn union_length() {
    let (a, b, _, p, q, _, graph) = three_triples();

    let mut other = HashGraph::new();
    other.insert(a.clone(), p.clone(), b.clone());
    other.insert(b.clone(), p.clone(), a.clone());
    other.insert(a.clone(), q.clone(), b.clone());

    let union = arrdf::set::union(&graph, &other);
    let extra = arrdf::set::difference(&other, &graph);
    assert_eq!(union.len(), graph.len() + extra.len());

    let union_graph = HashGraph::from_triples(union);
    for t in graph.triples() {
        assert!(union_graph.contains_triple(&t.subject, &t.predicate, &t.object));
    }
    for t in other.triples() {
        assert!(union_graph.contains_triple(&t.subject, &t.predicate, &t.object));
    }
}

#[test]
fn symmetric_difference_empty_iff_equal() {
    let (a, b, _, p, _, _, graph) = three_triples();

    let copy = HashGraph::from_triples(graph.triples());
    assert!(arrdf::set::symmetric_difference(&graph, &copy).is_empty());

    let mut larger = HashGraph::from_triples(graph.triples());
    larger.insert(a.clone(), p.clone(), a.clone());
    assert!(!arrdf::set::symmetric_difference(&graph, &larger).is_empty());
    assert!(!arrdf::set::symmetric_difference(&larger, &graph).is_empty());

    let mut smaller = HashGraph::from_triples(graph.triples());
    smaller.remove(&a, &p, &b);
    assert!(!arrdf::set::symmetric_difference(&graph, &smaller).is_empty());
}

#[test]
fn idempotent_mutation() {
    let (a, b, _, p, _, _, mut graph) = three_triples();

    // Inserting the same triple twice leaves the length unchanged after
    // the second insert.
    graph.insert(a.clone(), p.clone(), a.clone());
    let after_first = graph.len();
    graph.insert(a.clone(), p.clone(), a.clone());
    assert_eq!(after_first, graph.len());

    // Removing an absent triple leaves the length unchanged.
    let absent_object = Node::from("urn:props:absent");
    graph.remove(&a, &p, &absent_object);
    assert_eq!(after_first, graph.len());
    graph.remove(&b, &p, &absent_object);
    assert_eq!(after_first, graph.len());
}

#[test]
fn three_records_round_trip() {
    let (_, _, _, _, _, _, graph) = three_triples();

    // Collecting the triples into a fresh store of the same kind gives an
    // equal store: length and containment agree pointwise.
    let rebuilt = HashGraph::from_triples(graph.triples());
    assert_eq!(graph.len(), rebuilt.len());
    for t in graph.triples() {
        assert!(rebuilt.contains_triple(&t.subject, &t.predicate, &t.object));
    }
    for t in rebuilt.triples() {
        assert!(graph.contains_triple(&t.subject, &t.predicate, &t.object));
    }
}

#[test]
fn sanitize_scenario() {
    // Store {(A,p,B), (B,q,C), (C,r,A)} where A and B are IRIs and C is
    // blank: well-formedness only restricts literal subjects and
    // non-IRI predicates, so a blank subject or object is fine.
    let (a, _, _, p, _, _, mut graph) = three_triples();
    assert!(graph.is_valid_graph());

    // A literal subject must be removed by sanitize, and exactly that.
    let shout = Node::from("totally not an iri");
    graph.clone_insert(&shout, &p, &a);
    graph.clone_insert(&a, &p, &shout);
    assert!(!graph.is_valid_graph());
    assert_eq!(5, graph.len());

    graph.sanitize();
    assert!(graph.is_valid_graph());
    // The literal-subject triple went; the literal-object triple stayed.
    assert_eq!(4, graph.len());
    assert!(!graph.contains_triple(&shout, &p, &a));
    assert!(graph.contains_triple(&a, &p, &shout));
}

#[test]
fn retain_keeps_exactly_the_matching_triples() {
    let (a, b, c, p, q, r, mut graph) = three_triples();

    graph.retain(|s: &Node, _p: &Node, _o: &Node| !s.is_blank());
    assert_eq!(2, graph.len());
    assert!(graph.contains_triple(&a, &p, &b));
    assert!(graph.contains_triple(&b, &q, &c));
    assert!(!graph.contains_triple(&c, &r, &a));
}

#[test]
fn clear_then_extend() {
    let (a, b, _, p, _, _, mut graph) = three_triples();

    graph.clear();
    assert!(graph.is_empty());
    assert_eq!(0, graph.len());

    let batch = vec![
        arrdf::Triple::new(a.clone(), p.clone(), b.clone()),
        arrdf::Triple::new(b.clone(), p.clone(), a.clone()),
        arrdf::Triple::new(a.clone(), p.clone(), b.clone()),
    ];
    graph.extend(batch);
    assert_eq!(2, graph.len());
    assert!(graph.contains_triple(&a, &p, &b));
    assert!(graph.contains_triple(&b, &p, &a));
}
