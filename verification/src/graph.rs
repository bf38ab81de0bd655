use vstd::prelude::*;

verus! {

use crate::node::Node;
use crate::node::NodeView;

/// The mathematical value of a triple: subject, predicate and object.
pub type TripleView = (NodeView, NodeView, NodeView);

/// Whether a triple is well formed per the W3C rules for non-generalized
/// RDF: the subject is not a literal and the predicate is an IRI.
pub open spec fn wf_triple(t: TripleView) -> bool {
    !t.0.is_literal() && t.1.is_iri()
}

/// An owned (subject, predicate, object) fact.
pub struct Triple {
    pub subject: Node,
    pub predicate: Node,
    pub object: Node,
}

impl View for Triple {
    type V = TripleView;

    open spec fn view(&self) -> TripleView {
        (self.subject@, self.predicate@, self.object@)
    }
}

impl Triple {
    pub fn new(subject: Node, predicate: Node, object: Node) -> (t: Triple)
        ensures
            t@ == (subject@, predicate@, object@),
    {
        Triple { subject, predicate, object }
    }
}

impl Clone for Triple {
    fn clone(&self) -> (t: Self)
        ensures
            t@ == self@,
    {
        Triple {
            subject: self.subject.clone(),
            predicate: self.predicate.clone(),
            object: self.object.clone(),
        }
    }
}

/// The sequence of triple values that a vector of triples denotes.
pub open spec fn views_of(v: Seq<Triple>) -> Seq<TripleView> {
    v.map_values(|t: Triple| t@)
}

/// A generalized RDF triple store: a finite set of triples, with no
/// duplicates and no promised order.
///
/// `contents` is the set of triples the store holds and `inv` its
/// representation invariant; every operation is specified against
/// `contents` alone.
pub trait Graph: Sized {
    spec fn contents(&self) -> Set<TripleView>;

    spec fn inv(&self) -> bool;

    /// A store always holds finitely many triples.
    proof fn lemma_contents_finite(&self)
        requires
            self.inv(),
        ensures
            self.contents().finite(),
    ;

    /// The number of distinct triples in the store.
    fn len(&self) -> (n: usize)
        requires
            self.inv(),
        ensures
            n == self.contents().len(),
    ;

    /// Whether the store holds no triple at all.
    fn is_empty(&self) -> (r: bool)
        requires
            self.inv(),
        ensures
            r == self.contents().is_empty(),
    ;

    /// Exact containment test for one triple.
    fn contains(&self, subject: &Node, predicate: &Node, object: &Node) -> (r: bool)
        requires
            self.inv(),
        ensures
            r == self.contents().contains((subject@, predicate@, object@)),
    ;

    /// All triples of the store, each exactly once, in no promised order.
    fn triples(&self) -> (v: Vec<Triple>)
        requires
            self.inv(),
        ensures
            views_of(v@).no_duplicates(),
            views_of(v@).to_set() == self.contents(),
    ;

    /// Insert a triple, taking ownership of the nodes. Inserting a triple
    /// the store already holds changes nothing.
    fn insert(&mut self, subject: Node, predicate: Node, object: Node)
        requires
            old(self).inv(),
        ensures
            final(self).inv(),
            final(self).contents() == old(self).contents().insert(
                (subject@, predicate@, object@),
            ),
    ;

    /// Remove a triple. Removing an absent triple changes nothing.
    fn remove(&mut self, subject: &Node, predicate: &Node, object: &Node)
        requires
            old(self).inv(),
        ensures
            final(self).inv(),
            final(self).contents() == old(self).contents().remove(
                (subject@, predicate@, object@),
            ),
    ;

    /// Remove every triple.
    fn clear(&mut self)
        requires
            old(self).inv(),
        ensures
            final(self).inv(),
            final(self).contents() == Set::<TripleView>::empty(),
    ;

    /// Keep only the triples for which `f` answers true.
    fn retain<F: Fn(&Node, &Node, &Node) -> bool>(&mut self, f: F)
        requires
            old(self).inv(),
            forall|s: Node, p: Node, o: Node| #[trigger] call_requires(f, (&s, &p, &o)),
        ensures
            final(self).inv(),
            final(self).contents().subset_of(old(self).contents()),
            forall|t: TripleView| #[trigger]
                final(self).contents().contains(t) ==> exists|s: Node, p: Node, o: Node|
                    (s@, p@, o@) == t && #[trigger] call_ensures(f, (&s, &p, &o), true),
            forall|t: TripleView|
                old(self).contents().contains(t) && !#[trigger] final(self).contents().contains(t)
                    ==> exists|s: Node, p: Node, o: Node|
                    (s@, p@, o@) == t && #[trigger] call_ensures(f, (&s, &p, &o), false),
    ;

    /// Insert a triple by cloning borrowed nodes.
    fn clone_insert(&mut self, subject: &Node, predicate: &Node, object: &Node)
        requires
            old(self).inv(),
        ensures
            final(self).inv(),
            final(self).contents() == old(self).contents().insert(
                (subject@, predicate@, object@),
            ),
    {
        self.insert(subject.clone(), predicate.clone(), object.clone());
    }

    /// Insert every triple of the vector, taking ownership.
    #[verifier::loop_isolation(false)]
    fn extend(&mut self, triples: Vec<Triple>)
        requires
            old(self).inv(),
        ensures
            final(self).inv(),
            final(self).contents() == old(self).contents().union(views_of(triples@).to_set()),
    {
        broadcast use vstd::seq_lib::group_seq_properties;
        broadcast use Seq::lemma_push_to_set_commute;

        let rest = triples;
        let mut i: usize = 0;
        while i < rest.len()
            invariant
                self.inv(),
                0 <= i <= rest.len(),
                self.contents() == old(self).contents().union(
                    views_of(rest@.take(i as int)).to_set(),
                ),
            decreases rest.len() - i,
        {
            let t = rest[i].clone();
            let ghost prefix = views_of(rest@.take(i as int));
            self.insert(t.subject, t.predicate, t.object);
            proof {
                let x = rest@[i as int]@;
                assert(rest@.take(i as int + 1) =~= rest@.take(i as int).push(rest@[i as int]));
                assert(views_of(rest@.take(i as int + 1)) =~= prefix.push(x));
                prefix.lemma_push_to_set_commute(x);
                assert(self.contents() == old(self).contents().union(prefix.to_set()).insert(x));
                assert(old(self).contents().union(prefix.to_set()).insert(x)
                    =~= old(self).contents().union(prefix.to_set().insert(x)));
                assert(self.contents() =~= old(self).contents().union(
                    views_of(rest@.take(i as int + 1)).to_set(),
                ));
            }
            i = i + 1;
        }
        proof {
            assert(rest@.take(rest@.len() as int) =~= rest@);
        }
    }

    /// Insert every triple of the borrowed vector, cloning its nodes.
    #[verifier::loop_isolation(false)]
    fn clone_extend(&mut self, triples: &Vec<Triple>)
        requires
            old(self).inv(),
        ensures
            final(self).inv(),
            final(self).contents() == old(self).contents().union(views_of(triples@).to_set()),
    {
        let mut copy: Vec<Triple> = Vec::new();
        let mut i: usize = 0;
        while i < triples.len()
            invariant
                0 <= i <= triples.len(),
                views_of(copy@) =~= views_of(triples@.take(i as int)),
            decreases triples.len() - i,
        {
            let ghost prefix = copy@;
            copy.push(triples[i].clone());
            proof {
                assert(views_of(copy@) =~= views_of(prefix).push(copy@[i as int]@));
                assert(triples@.take(i as int + 1) =~= triples@.take(i as int).push(
                    triples@[i as int],
                ));
                assert(views_of(triples@.take(i as int + 1)) =~= views_of(
                    triples@.take(i as int),
                ).push(triples@[i as int]@));
            }
            i = i + 1;
        }
        proof {
            assert(triples@.take(triples@.len() as int) =~= triples@);
        }
        self.extend(copy);
    }

    /// Remove every triple of the borrowed vector.
    #[verifier::loop_isolation(false)]
    fn remove_all(&mut self, triples: &Vec<Triple>)
        requires
            old(self).inv(),
        ensures
            final(self).inv(),
            final(self).contents() == old(self).contents().difference(views_of(triples@).to_set()),
    {
        broadcast use vstd::seq_lib::group_seq_properties;
        broadcast use Seq::lemma_push_to_set_commute;

        let mut i: usize = 0;
        while i < triples.len()
            invariant
                self.inv(),
                0 <= i <= triples.len(),
                self.contents() == old(self).contents().difference(
                    views_of(triples@.take(i as int)).to_set(),
                ),
            decreases triples.len() - i,
        {
            let t = &triples[i];
            self.remove(&t.subject, &t.predicate, &t.object);
            proof {
                let x = triples@[i as int]@;
                let prefix = views_of(triples@.take(i as int));
                assert(triples@.take(i as int + 1) =~= triples@.take(i as int).push(
                    triples@[i as int],
                ));
                assert(views_of(triples@.take(i as int + 1)) =~= prefix.push(x));
                prefix.lemma_push_to_set_commute(x);
                assert(self.contents() == old(self).contents().difference(prefix.to_set()).remove(
                    x,
                ));
                assert(old(self).contents().difference(prefix.to_set()).remove(x)
                    =~= old(self).contents().difference(prefix.to_set().insert(x)));
                assert(self.contents() =~= old(self).contents().difference(
                    views_of(triples@.take(i as int + 1)).to_set(),
                ));
            }
            i = i + 1;
        }
        proof {
            assert(triples@.take(triples@.len() as int) =~= triples@);
        }
    }

    /// Whether every triple of the store is well formed.
    #[verifier::loop_isolation(false)]
    fn is_valid_graph(&self) -> (r: bool)
        requires
            self.inv(),
        ensures
            r == forall|t: TripleView| #[trigger] self.contents().contains(t) ==> wf_triple(t),
    {
        let v = self.triples();
        let mut i: usize = 0;
        while i < v.len()
            invariant
                0 <= i <= v.len(),
                views_of(v@).to_set() == self.contents(),
                forall|j: int| 0 <= j < i ==> wf_triple(#[trigger] views_of(v@)[j]),
            decreases v.len() - i,
        {
            let t = &v[i];
            let subject_literal = t.subject.is_literal();
            let predicate_iri = t.predicate.is_iri();
            if subject_literal || !predicate_iri {
                proof {
                    assert(views_of(v@)[i as int] == v@[i as int]@);
                    assert(views_of(v@).contains(v@[i as int]@));
                    assert(views_of(v@).to_set().contains(v@[i as int]@));
                }
                return false;
            }
            proof {
                assert(views_of(v@)[i as int] == v@[i as int]@);
            }
            i = i + 1;
        }
        proof {
            assert forall|t: TripleView| #[trigger] self.contents().contains(t) implies wf_triple(
                t,
            ) by {
                assert(views_of(v@).contains(t));
                let j = choose|j: int| 0 <= j < views_of(v@).len() && views_of(v@)[j] == t;
                assert(wf_triple(views_of(v@)[j]));
            };
        }
        true
    }

    /// Remove every triple that is not well formed.
    fn sanitize(&mut self)
        requires
            old(self).inv(),
        ensures
            final(self).inv(),
            final(self).contents() == old(self).contents().filter(|t: TripleView| wf_triple(t)),
    {
        let keep = |subject: &Node, predicate: &Node, object: &Node| -> (b: bool)
            ensures
                b == wf_triple((subject@, predicate@, object@)),
            {
                !subject.is_literal() && predicate.is_iri()
            };
        self.retain(keep);
        proof {
            assert(self.contents() =~= old(self).contents().filter(
                |t: TripleView| wf_triple(t),
            ));
        }
    }
}

/// A graph that can produce an owned copy of itself holding exactly the
/// same triples. The transactional layer uses this to take snapshots.
pub trait SnapshotGraph: Graph {
    fn snapshot(&self) -> (g: Self)
        requires
            self.inv(),
        ensures
            g.inv(),
            g.contents() == self.contents(),
    ;
}

/// Mutation is idempotent at the level of the triple set: inserting a
/// triple a second time changes nothing, and removing an absent triple
/// changes nothing, so the length is unchanged in both cases.
pub proof fn lemma_mutation_idempotent(c: Set<TripleView>, t: TripleView)
    requires
        c.finite(),
    ensures
        c.insert(t).insert(t) == c.insert(t),
        c.insert(t).insert(t).len() == c.insert(t).len(),
        !c.contains(t) ==> c.remove(t) == c && c.remove(t).len() == c.len(),
{
    assert(c.insert(t).insert(t) =~= c.insert(t));
    if !c.contains(t) {
        assert(c.remove(t) =~= c);
    }
}

/// Round trip: a store holding exactly the triples collected from another
/// store holds the same set, with equal length and pointwise equal
/// containment.
pub proof fn lemma_round_trip<G: Graph, H: Graph>(g: &G, h: &H, collected: Seq<Triple>)
    requires
        g.inv(),
        h.inv(),
        views_of(collected).to_set() == g.contents(),
        h.contents() == views_of(collected).to_set(),
    ensures
        h.contents() == g.contents(),
        h.contents().len() == g.contents().len(),
        forall|t: TripleView| #[trigger]
            h.contents().contains(t) == g.contents().contains(t),
{
}

} // verus!
