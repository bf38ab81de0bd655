use arrdf::Graph;
use arrdf::HashGraph;
use arrdf::Node;
use arrdf::Triple;
use arrdf::Validator;

struct Testbed {
    predicate_a: Node,
    predicate_b: Node,
    predicate_c: Node,
    node_a: Node,
    node_b: Node,
    node_c: Node,
    graph: HashGraph,
}

fn testbed() -> Testbed {
    let predicate_a = Node::from("urn:arrf:tests:predicate:a");
    let predicate_b = Node::from("urn:arrf:tests:predicate:b");
    let predicate_c = Node::from("urn:arrf:tests:predicate:c");

    let node_a = Node::from("urn:arrf:tests:node:a");
    let node_b = Node::from("urn:arrf:tests:node:b");
    let node_c = Node::blank();

    let mut graph = HashGraph::new();
    graph.insert(node_a.clone(), predicate_a.clone(), node_b.clone());
    graph.insert(node_b.clone(), predicate_b.clone(), node_c.clone());
    graph.insert(node_c.clone(), predicate_c.clone(), node_a.clone());

    Testbed { predicate_a, predicate_b, predicate_c, node_a, node_b, node_c, graph }
}

fn vec_has(triples: &[Triple], s: &Node, p: &Node, o: &Node) -> bool {
    triples.iter().any(|t| t.subject == *s && t.predicate == *p && t.object == *o)
}

#[test]
fn hash_contains_subject() {
    let testbed = testbed();

    assert!(testbed.graph.contains_subject(&testbed.node_a));
    assert!(testbed.graph.contains_subject(&testbed.node_b));
    assert!(testbed.graph.contains_subject(&testbed.node_c));

    assert!(!testbed.graph.contains_subject(&testbed.predicate_a));
    assert!(!testbed.graph.contains_subject(&testbed.predicate_b));
    assert!(!testbed.graph.contains_subject(&testbed.predicate_c));
}

#[test]
fn hash_subject() {
    let testbed = testbed();

    let subjects: Vec<Node> = testbed.graph.subjects();

    assert_eq!(3, subjects.len());

    assert!(subjects.contains(&testbed.node_a));
    assert!(subjects.contains(&testbed.node_b));
    assert!(subjects.contains(&testbed.node_c));

    assert!(!subjects.contains(&testbed.predicate_a));
    assert!(!subjects.contains(&testbed.predicate_b));
    assert!(!subjects.contains(&testbed.predicate_c));
}

#[test]
fn hash_relationships() {
    let testbed = testbed();

    let relationships = testbed.graph.relationships(&testbed.node_a);
    assert_eq!(1, relationships.len());
    assert!(vec_has(&relationships, &testbed.node_a, &testbed.predicate_a, &testbed.node_b));

    let relationships = testbed.graph.relationships(&testbed.node_b);
    assert_eq!(1, relationships.len());
    assert!(vec_has(&relationships, &testbed.node_b, &testbed.predicate_b, &testbed.node_c));

    let relationships = testbed.graph.relationships(&testbed.node_c);
    assert_eq!(1, relationships.len());
    assert!(vec_has(&relationships, &testbed.node_c, &testbed.predicate_c, &testbed.node_a));

    assert!(testbed.graph.relationships(&testbed.predicate_a).is_empty());
    assert!(testbed.graph.relationships(&testbed.predicate_b).is_empty());
    assert!(testbed.graph.relationships(&testbed.predicate_c).is_empty());
}

#[test]
fn hash_triples() {
    let testbed = testbed();

    let triples = testbed.graph.triples();
    assert_eq!(3, triples.len());
    assert!(vec_has(&triples, &testbed.node_a, &testbed.predicate_a, &testbed.node_b));
    assert!(vec_has(&triples, &testbed.node_b, &testbed.predicate_b, &testbed.node_c));
    assert!(vec_has(&triples, &testbed.node_c, &testbed.predicate_c, &testbed.node_a));
}

#[test]
fn hash_contains_triple() {
    let testbed = testbed();

    assert!(testbed.graph.contains_triple(&testbed.node_a, &testbed.predicate_a, &testbed.node_b));
    assert!(testbed.graph.contains_triple(&testbed.node_b, &testbed.predicate_b, &testbed.node_c));
    assert!(testbed.graph.contains_triple(&testbed.node_c, &testbed.predicate_c, &testbed.node_a));
}

#[test]
fn remove_triple() {
    let mut testbed = testbed();

    testbed.graph.remove(&testbed.node_c, &testbed.predicate_c, &testbed.node_a);

    let triples = testbed.graph.triples();
    assert_eq!(2, triples.len());
    assert!(vec_has(&triples, &testbed.node_a, &testbed.predicate_a, &testbed.node_b));
    assert!(vec_has(&triples, &testbed.node_b, &testbed.predicate_b, &testbed.node_c));
}

#[test]
fn validate() {
    let mut validator = Validator::new(HashGraph::new());
    validator.validate();
}

#[test]
fn capacity_and_shrink() {
    let mut graph = HashGraph::with_capacity(16);
    assert!(graph.is_empty());
    let a = Node::from("urn:x:a");
    let p = Node::from("urn:x:p");
    let b = Node::from("urn:x:b");
    graph.insert(a.clone(), p.clone(), b.clone());
    graph.shrink_to_fit();
    assert_eq!(1, graph.len());
    assert!(graph.contains_triple(&a, &p, &b));
}

#[test]
fn lazy_iteration() {
    let testbed = testbed();
    let mut iter = testbed.graph.iter();
    let mut seen = Vec::new();
    while let Some(t) = iter.next() {
        seen.push(t);
    }
    assert_eq!(3, seen.len());
    assert!(vec_has(&seen, &testbed.node_a, &testbed.predicate_a, &testbed.node_b));
    assert!(vec_has(&seen, &testbed.node_b, &testbed.predicate_b, &testbed.node_c));
    assert!(vec_has(&seen, &testbed.node_c, &testbed.predicate_c, &testbed.node_a));

    // The walk is restartable: a fresh iterator starts over.
    let mut again = testbed.graph.iter();
    assert!(again.next().is_some());
}

#[test]
fn objects_query() {
    let testbed = testbed();
    let objects = testbed.graph.objects(&testbed.node_a, &testbed.predicate_a);
    assert_eq!(1, objects.len());
    assert!(vec_has(&objects, &testbed.node_a, &testbed.predicate_a, &testbed.node_b));
    assert!(testbed.graph.objects(&testbed.node_a, &testbed.predicate_b).is_empty());
}
