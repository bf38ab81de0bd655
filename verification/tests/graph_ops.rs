use arrdf::Graph;
use arrdf::HashGraph;
use arrdf::Node;
use arrdf::Triple;

struct Testbed {
    predicate_a: Node,
    predicate_b: Node,
    predicate_c: Node,
    node_a: Node,
    node_b: Node,
    node_c: Node,
    graph: HashGraph,
}

fn testbed() -> Testbed {
    let predicate_a = Node::from("urn:arrf:tests:predicate:a");
    let predicate_b = Node::from("urn:arrf:tests:predicate:b");
    let predicate_c = Node::from("urn:arrf:tests:predicate:c");

    let node_a = Node::from("urn:arrf:tests:node:a");
    let node_b = Node::from("urn:arrf:tests:node:b");
    let node_c = Node::blank();

    let mut graph = HashGraph::new();
    graph.insert(node_a.clone(), predicate_a.clone(), node_b.clone());
    graph.insert(node_b.clone(), predicate_b.clone(), node_c.clone());
    graph.insert(node_c.clone(), predicate_c.clone(), node_a.clone());

    Testbed { predicate_a, predicate_b, predicate_c, node_a, node_b, node_c, graph }
}

fn vec_has(triples: &[Triple], s: &Node, p: &Node, o: &Node) -> bool {
    triples.iter().any(|t| t.subject == *s && t.predicate == *p && t.object == *o)
}

#[test]
fn tests_len() {
    let mut testbed = testbed();
    assert_eq!(3, testbed.graph.len());

    testbed.graph.insert(testbed.node_a, testbed.predicate_a, testbed.node_c);
    assert_eq!(4, testbed.graph.len());
}

#[test]
fn tests_contains_subject() {
    let testbed = testbed();

    assert!(testbed.graph.contains_subject(&testbed.node_a));
    assert!(testbed.graph.contains_subject(&testbed.node_b));
    assert!(testbed.graph.contains_subject(&testbed.node_c));

    assert!(!testbed.graph.contains_subject(&testbed.predicate_a));
    assert!(!testbed.graph.contains_subject(&testbed.predicate_b));
    assert!(!testbed.graph.contains_subject(&testbed.predicate_c));
}

#[test]
fn tests_subject() {
    let testbed = testbed();

    let subjects: Vec<Node> = testbed.graph.subjects();

    assert_eq!(3, subjects.len());

    assert!(subjects.contains(&testbed.node_a));
    assert!(subjects.contains(&testbed.node_b));
    assert!(subjects.contains(&testbed.node_c));

    assert!(!subjects.contains(&testbed.predicate_a));
    assert!(!subjects.contains(&testbed.predicate_b));
    assert!(!subjects.contains(&testbed.predicate_c));
}

#[test]
fn tests_relationships() {
    let testbed = testbed();

    let relationships = testbed.graph.relationships(&testbed.node_a);
    assert_eq!(1, relationships.len());
    assert!(vec_has(&relationships, &testbed.node_a, &testbed.predicate_a, &testbed.node_b));

    let relationships = testbed.graph.relationships(&testbed.node_b);
    assert_eq!(1, relationships.len());
    assert!(vec_has(&relationships, &testbed.node_b, &testbed.predicate_b, &testbed.node_c));

    let relationships = testbed.graph.relationships(&testbed.node_c);
    assert_eq!(1, relationships.len());
    assert!(vec_has(&relationships, &testbed.node_c, &testbed.predicate_c, &testbed.node_a));

    assert_eq!(0, testbed.graph.relationships(&testbed.predicate_a).len());
    assert_eq!(0, testbed.graph.relationships(&testbed.predicate_b).len());
    assert_eq!(0, testbed.graph.relationships(&testbed.predicate_c).len());
}

#[test]
fn tests_triples() {
    let testbed = testbed();

    let triples = testbed.graph.triples();
    assert_eq!(3, triples.len());
    assert!(vec_has(&triples, &testbed.node_a, &testbed.predicate_a, &testbed.node_b));
    assert!(vec_has(&triples, &testbed.node_b, &testbed.predicate_b, &testbed.node_c));
    assert!(vec_has(&triples, &testbed.node_c, &testbed.predicate_c, &testbed.node_a));
}

#[test]
fn tests_is_valid_rdf() {
    let mut testbed = testbed();

    // The base graph is well formed: a blank subject or object is fine.
    assert!(testbed.graph.is_valid_graph());

    // A literal subject breaks validity; sanitize removes exactly it.
    let literal = Node::from("a plain literal");
    testbed.graph.clone_insert(&literal, &testbed.predicate_a, &testbed.node_a);
    assert!(!testbed.graph.is_valid_graph());
    assert_eq!(4, testbed.graph.len());

    testbed.graph.sanitize();
    assert!(testbed.graph.is_valid_graph());
    assert_eq!(3, testbed.graph.len());
}

#[test]
fn tests_contains_triple() {
    let testbed = testbed();

    assert!(testbed.graph.contains_triple(&testbed.node_a, &testbed.predicate_a, &testbed.node_b));
    assert!(testbed.graph.contains_triple(&testbed.node_b, &testbed.predicate_b, &testbed.node_c));
    assert!(testbed.graph.contains_triple(&testbed.node_c, &testbed.predicate_c, &testbed.node_a));

    assert!(!testbed.graph.contains_triple(&testbed.node_a, &testbed.predicate_b, &testbed.node_b));
}

#[test]
fn tests_remove() {
    let mut testbed = testbed();

    testbed.graph.remove(&testbed.node_c, &testbed.predicate_c, &testbed.node_a);

    let triples = testbed.graph.triples();
    assert_eq!(2, triples.len());
    assert!(vec_has(&triples, &testbed.node_a, &testbed.predicate_a, &testbed.node_b));
    assert!(vec_has(&triples, &testbed.node_b, &testbed.predicate_b, &testbed.node_c));
}

#[test]
fn tests_retain() {
    let mut testbed = testbed();

    testbed.graph.retain(|_s: &Node, _p: &Node, o: &Node| o.is_blank());

    let triples = testbed.graph.triples();
    assert_eq!(1, triples.len());
    assert!(vec_has(&triples, &testbed.node_b, &testbed.predicate_b, &testbed.node_c));
}

#[test]
fn tests_from_iter() {
    let testbed = testbed();
    let other_graph = HashGraph::from_triples(testbed.graph.triples());
    assert_eq!(testbed.graph.len(), other_graph.len());
    assert!(testbed.graph.is_subset(&other_graph));
    assert!(other_graph.is_subset(&testbed.graph));
}

#[test]
fn tests_difference() {
    let testbed = testbed();

    let a = testbed.graph;
    let mut b = HashGraph::new();
    b.insert(testbed.node_a.clone(), testbed.predicate_a.clone(), testbed.node_b.clone());
    b.insert(testbed.node_b.clone(), testbed.predicate_a.clone(), testbed.node_a.clone());

    let difference = HashGraph::from_triples(a.difference(&b));

    assert_eq!(2, difference.len());
    assert!(difference.contains_triple(&testbed.node_b, &testbed.predicate_b, &testbed.node_c));
    assert!(difference.contains_triple(&testbed.node_c, &testbed.predicate_c, &testbed.node_a));
}

#[test]
fn tests_symmetric_difference() {
    let testbed = testbed();

    let a = testbed.graph;
    let mut b = HashGraph::new();
    b.insert(testbed.node_a.clone(), testbed.predicate_a.clone(), testbed.node_b.clone());
    b.insert(testbed.node_b.clone(), testbed.predicate_a.clone(), testbed.node_a.clone());

    let difference = HashGraph::from_triples(a.symmetric_difference(&b));

    assert_eq!(3, difference.len());
    assert!(difference.contains_triple(&testbed.node_b, &testbed.predicate_b, &testbed.node_c));
    assert!(difference.contains_triple(&testbed.node_c, &testbed.predicate_c, &testbed.node_a));
    assert!(difference.contains_triple(&testbed.node_b, &testbed.predicate_a, &testbed.node_a));
}

#[test]
fn tests_union() {
    let testbed = testbed();

    let a = testbed.graph;
    let mut b = HashGraph::new();
    b.insert(testbed.node_a.clone(), testbed.predicate_a.clone(), testbed.node_b.clone());
    b.insert(testbed.node_b.clone(), testbed.predicate_a.clone(), testbed.node_a.clone());

    let union = HashGraph::from_triples(a.union(&b));

    assert_eq!(4, union.len());
    assert!(union.contains_triple(&testbed.node_a, &testbed.predicate_a, &testbed.node_b));
    assert!(union.contains_triple(&testbed.node_b, &testbed.predicate_b, &testbed.node_c));
    assert!(union.contains_triple(&testbed.node_c, &testbed.predicate_c, &testbed.node_a));
    assert!(union.contains_triple(&testbed.node_b, &testbed.predicate_a, &testbed.node_a));
}

#[test]
fn tests_is_subset_superset() {
    let testbed = testbed();

    let a = testbed.graph;
    let mut b = HashGraph::new();
    b.insert(testbed.node_a.clone(), testbed.predicate_a.clone(), testbed.node_b.clone());
    b.insert(testbed.node_b.clone(), testbed.predicate_a.clone(), testbed.node_a.clone());

    assert!(a.is_subset(&a));
    assert!(a.is_superset(&a));

    assert!(!b.is_subset(&a));
    assert!(!a.is_subset(&b));

    b.remove(&testbed.node_b, &testbed.predicate_a, &testbed.node_a);

    assert!(b.is_subset(&a));
    assert!(a.is_superset(&b));
}

#[test]
fn tests_is_disjoint() {
    let testbed = testbed();

    let a = testbed.graph;
    let mut b = HashGraph::new();
    b.insert(testbed.node_a.clone(), testbed.predicate_a.clone(), testbed.node_b.clone());
    b.insert(testbed.node_b.clone(), testbed.predicate_a.clone(), testbed.node_a.clone());

    assert!(!a.is_disjoint(&a));
    assert!(!a.is_disjoint(&b));

    b.remove(&testbed.node_a, &testbed.predicate_a, &testbed.node_b);

    assert!(a.is_disjoint(&b));
}
