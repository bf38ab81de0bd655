use arrdf::Graph;
use arrdf::HashGraph;
use arrdf::Validator;
use arrdf::transaction::TransactionGraph;

#[test]
fn query() {
    let validator = Validator::new(HashGraph::new());
    let graph = TransactionGraph::new(validator.graph);
    let node_a = &validator.node_a;
    let node_b = &validator.node_b;
    let node_c = &validator.node_c;
    let predicate_a = &validator.predicate_a;
    let predicate_b = &validator.predicate_b;
    let predicate_c = &validator.predicate_c;

    assert_eq!(3, graph.transaction().len());
    assert!(graph.transaction().contains(node_a, predicate_a, node_b));
    assert!(graph.transaction().contains(node_b, predicate_b, node_c));
    assert!(graph.transaction().contains(node_c, predicate_c, node_a));

    let count = graph.query(|g: &HashGraph| g.len());
    assert_eq!(Some(3), count);
}

#[test]
fn try_query() {
    let validator = Validator::new(HashGraph::new());
    let graph = TransactionGraph::new(validator.graph);
    let node_a = &validator.node_a;
    let node_b = &validator.node_b;
    let node_c = &validator.node_c;
    let predicate_a = &validator.predicate_a;
    let predicate_b = &validator.predicate_b;
    let predicate_c = &validator.predicate_c;

    assert_eq!(3, graph.transaction().len());
    assert!(graph.try_transaction().unwrap().contains(node_a, predicate_a, node_b));
    assert!(graph.try_transaction().unwrap().contains(node_b, predicate_b, node_c));
    assert!(graph.try_transaction().unwrap().contains(node_c, predicate_c, node_a));

    let _transaction = graph.mut_transaction();

    assert!(graph.try_transaction().is_none());
}

#[test]
fn cached_query() {
    let validator = Validator::new(HashGraph::new());
    let graph = TransactionGraph::new(validator.graph);
    let node_a = &validator.node_a;
    let predicate_a = &validator.predicate_a;

    let mut query = graph.cached_query(|g: &HashGraph| g.len());
    assert_eq!(3, *query.value());

    let mut transaction = graph.mut_transaction();
    transaction.clone_insert(node_a, predicate_a, node_a);

    // No query can run while a mutable transaction is in progress.
    assert!(graph.try_cached_query(|g: &HashGraph| g.len()).is_none());

    transaction.commit();

    query.update();
    assert_eq!(4, *query.value());
}

#[test]
fn mut_transaction() {
    let graph = TransactionGraph::new(HashGraph::new());

    // Let the validator set up the graph, commit the setup and start a new
    // transaction.
    let mut validator = Validator::new(graph.mut_transaction());
    validator.graph.commit();

    validator.graph = graph.mut_transaction();
    validator.validate();
}

#[test]
fn try_mut_transaction() {
    let graph = TransactionGraph::new(HashGraph::new());

    // A mutable transaction can start right away.
    assert!(graph.try_mut_transaction().is_some());

    // While an immutable transaction is alive, no mutable one can start.
    let _transaction = graph.transaction();
    assert!(graph.try_mut_transaction().is_none());
}

#[test]
fn transaction_isolation() {
    let validator = Validator::new(HashGraph::new());
    let node_a = validator.node_a.clone();
    let predicate_a = validator.predicate_a.clone();
    let graph = TransactionGraph::new(validator.graph);

    // The snapshot of a read transaction reflects the store at its start.
    assert_eq!(0, graph.transaction().revision());

    // A discarded transaction leaves no trace.
    {
        let mut staged = graph.mut_transaction();
        staged.clone_insert(&node_a, &predicate_a, &node_a);
        assert_eq!(4, staged.len());
        assert!(staged.contains(&node_a, &predicate_a, &node_a));
        // While the writer is open, the store cannot even be read.
        assert!(graph.try_transaction().is_none());
    }
    let after_discard = graph.transaction();
    assert_eq!(3, after_discard.len());
    assert!(!after_discard.contains(&node_a, &predicate_a, &node_a));
    assert_eq!(0, after_discard.revision());
    drop(after_discard);

    // A committed transaction becomes visible and advances the revision by
    // exactly one.
    let mut staged = graph.mut_transaction();
    staged.clone_insert(&node_a, &predicate_a, &node_a);
    staged.commit();
    let after_commit = graph.transaction();
    assert_eq!(4, after_commit.len());
    assert!(after_commit.contains(&node_a, &predicate_a, &node_a));
    assert_eq!(1, after_commit.revision());
}

#[test]
fn cached_query_revision_gating() {
    let validator = Validator::new(HashGraph::new());
    let node_a = validator.node_a.clone();
    let predicate_a = validator.predicate_a.clone();
    let graph = TransactionGraph::new(validator.graph);

    // A cached `len` against a three-triple store reads three.
    let mut len_query = graph.cached_query(|g: &HashGraph| g.len());
    assert_eq!(3, *len_query.value());
    assert_eq!(0, len_query.revision());

    // A committed transaction adding one triple moves it to four.
    let mut staged = graph.mut_transaction();
    staged.clone_insert(&node_a, &predicate_a, &node_a);
    staged.commit();
    len_query.update();
    assert_eq!(4, *len_query.value());
    assert_eq!(1, len_query.revision());

    // Without an intervening commit, a second update changes nothing.
    len_query.update();
    assert_eq!(4, *len_query.value());
    assert_eq!(1, len_query.revision());
}

#[test]
fn write_contention() {
    let graph = TransactionGraph::new(HashGraph::new());
    let a = arrdf::Node::from("urn:x:a");
    let p = arrdf::Node::from("urn:x:p");
    let b = arrdf::Node::from("urn:x:b");

    // A non-blocking write request while another write transaction is open
    // reports unavailability.
    let mut first = graph.mut_transaction();
    first.clone_insert(&a, &p, &b);
    assert!(graph.try_mut_transaction().is_none());

    // Once the first commits, the request succeeds.
    first.commit();
    let second = graph.try_mut_transaction();
    assert!(second.is_some());
    drop(second);

    // The same holds when the first is discarded instead.
    let discarded = graph.mut_transaction();
    assert!(graph.try_mut_transaction().is_none());
    drop(discarded);
    assert!(graph.try_mut_transaction().is_some());
}

#[test]
fn staged_filtering() {
    let validator = Validator::new(HashGraph::new());
    let graph = TransactionGraph::new(validator.graph);

    // Retaining in an open transaction filters its view, not the store.
    let mut staged = graph.mut_transaction();
    staged.stage_retain(|_s: &arrdf::Node, _p: &arrdf::Node, o: &arrdf::Node| o.is_blank());
    assert_eq!(1, staged.len());
    drop(staged);
    assert_eq!(3, graph.transaction().len());

    // Clearing in an open transaction empties its view, not the store.
    let mut staged = graph.mut_transaction();
    staged.stage_clear();
    assert_eq!(0, staged.len());
    assert!(staged.is_empty());
    drop(staged);
    assert_eq!(3, graph.transaction().len());

    // Once committed, the staged clear empties the store.
    let mut staged = graph.mut_transaction();
    staged.stage_clear();
    staged.commit();
    assert_eq!(0, graph.transaction().len());
}
