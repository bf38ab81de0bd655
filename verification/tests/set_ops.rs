use arrdf::Graph;
use arrdf::HashGraph;
use arrdf::Node;
use arrdf::Validator;

#[test]
fn set_difference() {
    let validator = Validator::new(HashGraph::new());

    let a = validator.graph;
    let mut b = HashGraph::new();
    b.insert(validator.node_a.clone(), validator.predicate_a.clone(), validator.node_b.clone());
    b.insert(validator.node_b.clone(), validator.predicate_a.clone(), validator.node_a.clone());

    let difference = HashGraph::from_triples(arrdf::set::difference(&a, &b));

    assert_eq!(2, difference.len());
    assert!(difference.contains_triple(&validator.node_b, &validator.predicate_b, &validator.node_c));
    assert!(difference.contains_triple(&validator.node_c, &validator.predicate_c, &validator.node_a));
}

#[test]
fn set_symmetric_difference() {
    let validator = Validator::new(HashGraph::new());

    let a = validator.graph;
    let mut b = HashGraph::new();
    b.insert(validator.node_a.clone(), validator.predicate_a.clone(), validator.node_b.clone());
    b.insert(validator.node_b.clone(), validator.predicate_a.clone(), validator.node_a.clone());

    let difference = HashGraph::from_triples(arrdf::set::symmetric_difference(&a, &b));

    assert_eq!(3, difference.len());
    assert!(difference.contains_triple(&validator.node_b, &validator.predicate_b, &validator.node_c));
    assert!(difference.contains_triple(&validator.node_c, &validator.predicate_c, &validator.node_a));
    assert!(difference.contains_triple(&validator.node_b, &validator.predicate_a, &validator.node_a));
}

#[test]
fn set_union() {
    let validator = Validator::new(HashGraph::new());

    let a = validator.graph;
    let mut b = HashGraph::new();
    b.insert(validator.node_a.clone(), validator.predicate_a.clone(), validator.node_b.clone());
    b.insert(validator.node_b.clone(), validator.predicate_a.clone(), validator.node_a.clone());

    let union = HashGraph::from_triples(arrdf::set::union(&a, &b));

    assert_eq!(4, union.len());
    assert!(union.contains_triple(&validator.node_a, &validator.predicate_a, &validator.node_b));
    assert!(union.contains_triple(&validator.node_b, &validator.predicate_b, &validator.node_c));
    assert!(union.contains_triple(&validator.node_c, &validator.predicate_c, &validator.node_a));
    assert!(union.contains_triple(&validator.node_b, &validator.predicate_a, &validator.node_a));
}

#[test]
fn set_is_subset_superset() {
    let validator = Validator::new(HashGraph::new());

    let a = validator.graph;
    let mut b = HashGraph::new();
    b.insert(validator.node_a.clone(), validator.predicate_a.clone(), validator.node_b.clone());
    b.insert(validator.node_b.clone(), validator.predicate_a.clone(), validator.node_a.clone());

    assert!(arrdf::set::is_subset(&a, &a));
    assert!(arrdf::set::is_superset(&a, &a));

    assert!(!arrdf::set::is_subset(&b, &a));
    assert!(!arrdf::set::is_subset(&a, &b));

    b.remove(&validator.node_b, &validator.predicate_a, &validator.node_a);

    assert!(arrdf::set::is_subset(&b, &a));
    assert!(arrdf::set::is_superset(&a, &b));
}

#[test]
fn set_is_disjoint() {
    let validator = Validator::new(HashGraph::new());

    let a = validator.graph;
    let mut b = HashGraph::new();
    b.insert(validator.node_a.clone(), validator.predicate_a.clone(), validator.node_b.clone());
    b.insert(validator.node_b.clone(), validator.predicate_a.clone(), validator.node_a.clone());

    assert!(!arrdf::set::is_disjoint(&a, &a));
    assert!(!arrdf::set::is_disjoint(&a, &b));

    b.remove(&validator.node_a, &validator.predicate_a, &validator.node_b);

    assert!(arrdf::set::is_disjoint(&a, &b));
}
