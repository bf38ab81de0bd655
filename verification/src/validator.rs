use vstd::prelude::*;

verus! {

use crate::graph::Graph;
use crate::graph::Triple;
use crate::graph::TripleView;
use crate::graph::views_of;
use crate::graph::wf_triple;
use crate::node::Node;
use crate::node::NodeView;
use crate::node::seq_has_colon;

/// A verified exercise of the [`Graph`] contract.
///
/// The validator owns a store and a fixed family of nodes, and `validate`
/// drives the store through the whole capability set. Every assertion made
/// along the way is proved from the contract alone, so `validate` runs
/// without failure on any implementation that verifies against [`Graph`].
pub struct Validator<G> {
    pub predicate_a: Node,
    pub predicate_b: Node,
    pub predicate_c: Node,
    pub node_a: Node,
    pub node_b: Node,
    pub node_c: Node,
    pub graph: G,
}

impl<G: Graph> Validator<G> {
    /// The fixed node family: five IRI-shaped labels and one blank node.
    pub open spec fn nodes_wf(&self) -> bool {
        &&& self.predicate_a@ == (NodeView::Text { text: "urn:arrf:tests:predicate:a"@ })
        &&& self.predicate_b@ == (NodeView::Text { text: "urn:arrf:tests:predicate:b"@ })
        &&& self.predicate_c@ == (NodeView::Text { text: "urn:arrf:tests:predicate:c"@ })
        &&& self.node_a@ == (NodeView::Text { text: "urn:arrf:tests:node:a"@ })
        &&& self.node_b@ == (NodeView::Text { text: "urn:arrf:tests:node:b"@ })
        &&& self.node_c@ is Blank
    }

    pub open spec fn t1(&self) -> TripleView {
        (self.node_a@, self.predicate_a@, self.node_b@)
    }

    pub open spec fn t2(&self) -> TripleView {
        (self.node_b@, self.predicate_b@, self.node_c@)
    }

    pub open spec fn t3(&self) -> TripleView {
        (self.node_c@, self.predicate_c@, self.node_a@)
    }

    /// The three triples that `restore_graph` leaves in the store.
    pub open spec fn base(&self) -> Set<TripleView> {
        set![self.t1(), self.t2(), self.t3()]
    }

    pub open spec fn wf(&self) -> bool {
        self.nodes_wf() && self.graph.inv() && self.graph.contents() == self.base()
    }

    /// The two label inequalities every step leans on.
    proof fn lemma_labels(&self)
        requires
            self.nodes_wf(),
        ensures
            self.node_a@ != self.node_b@,
            self.predicate_a@ != self.predicate_b@,
            self.node_a@ is Text,
            self.node_b@ is Text,
    {
        reveal_strlit("urn:arrf:tests:node:a");
        reveal_strlit("urn:arrf:tests:node:b");
        reveal_strlit("urn:arrf:tests:predicate:a");
        reveal_strlit("urn:arrf:tests:predicate:b");
        assert("urn:arrf:tests:node:a"@[20] != "urn:arrf:tests:node:b"@[20]);
        assert("urn:arrf:tests:predicate:a"@[25] != "urn:arrf:tests:predicate:b"@[25]);
    }

    /// The three base triples are pairwise distinct, so the base set has
    /// exactly three members.
    proof fn lemma_base(&self)
        requires
            self.nodes_wf(),
        ensures
            self.t1() != self.t2(),
            self.t1() != self.t3(),
            self.t2() != self.t3(),
            self.base().finite(),
            self.base().len() == 3,
            self.base().contains(self.t1()),
            self.base().contains(self.t2()),
            self.base().contains(self.t3()),
    {
        self.lemma_labels();
    }

    /// Set up a validator around the given store, leaving the base triples
    /// in it.
    pub fn new(graph: G) -> (v: Validator<G>)
        requires
            graph.inv(),
        ensures
            v.wf(),
    {
        let predicate_a = Node::from("urn:arrf:tests:predicate:a");
        let predicate_b = Node::from("urn:arrf:tests:predicate:b");
        let predicate_c = Node::from("urn:arrf:tests:predicate:c");
        let node_a = Node::from("urn:arrf:tests:node:a");
        let node_b = Node::from("urn:arrf:tests:node:b");
        let node_c = Node::blank();
        let mut validator = Validator {
            predicate_a,
            predicate_b,
            predicate_c,
            node_a,
            node_b,
            node_c,
            graph,
        };
        validator.restore_graph();
        validator
    }

    /// Clear the store and put the three base triples back.
    fn restore_graph(&mut self)
        requires
            old(self).nodes_wf(),
            old(self).graph.inv(),
        ensures
            final(self).wf(),
            final(self).nodes_wf() == old(self).nodes_wf(),
            final(self).base() == old(self).base(),
    {
        self.graph.clear();
        let empty = self.graph.is_empty();
        assert(empty);
        self.graph.clone_insert(&self.node_a, &self.predicate_a, &self.node_b);
        self.graph.clone_insert(&self.node_b, &self.predicate_b, &self.node_c);
        self.graph.clone_insert(&self.node_c, &self.predicate_c, &self.node_a);
        proof {
            assert(self.graph.contents() =~= self.base());
        }
    }

    /// The store reports three triples, and four after one new insertion.
    fn len(&mut self)
        requires
            old(self).wf(),
        ensures
            final(self).nodes_wf(),
            final(self).graph.inv(),
    {
        proof {
            self.lemma_base();
        }
        let before = self.graph.len();
        assert(before == 3);
        self.graph.clone_insert(&self.node_a, &self.predicate_a, &self.node_c);
        let ghost extra = (self.node_a@, self.predicate_a@, self.node_c@);
        proof {
            self.lemma_labels();
            assert(extra != self.t1() && extra != self.t2() && extra != self.t3());
        }
        let after = self.graph.len();
        assert(after == 4);
    }

    /// Removing the three base triples leaves the store empty.
    fn is_empty(&mut self)
        requires
            old(self).wf(),
        ensures
            final(self).nodes_wf(),
            final(self).graph.inv(),
    {
        proof {
            self.lemma_base();
        }
        let full = self.graph.is_empty();
        assert(!full);
        self.graph.remove(&self.node_a, &self.predicate_a, &self.node_b);
        self.graph.remove(&self.node_b, &self.predicate_b, &self.node_c);
        self.graph.remove(&self.node_c, &self.predicate_c, &self.node_a);
        proof {
            assert(self.graph.contents() =~= Set::<TripleView>::empty());
        }
        let drained = self.graph.is_empty();
        assert(drained);
    }

    /// Iteration yields exactly the three base triples.
    fn iter(&self)
        requires
            self.wf(),
    {
        proof {
            self.lemma_base();
        }
        let collected = self.graph.triples();
        proof {
            views_of(collected@).unique_seq_to_set();
        }
        assert(collected.len() == 3);
        assert(views_of(collected@).to_set().contains(self.t1()));
        assert(views_of(collected@).to_set().contains(self.t2()));
        assert(views_of(collected@).to_set().contains(self.t3()));
    }

    /// A literal subject makes the store invalid; sanitizing restores
    /// validity.
    fn is_valid_rdf(&mut self)
        requires
            old(self).wf(),
        ensures
            final(self).nodes_wf(),
            final(self).graph.inv(),
    {
        let bad = Node::from("not an iri");
        let bad_is_literal = bad.is_literal();
        proof {
            reveal_strlit("not an iri");
            assert(!seq_has_colon("not an iri"@)) by {
                assert(forall|i: int|
                    0 <= i < "not an iri"@.len() ==> "not an iri"@[i] != ':');
            };
        }
        assert(bad_is_literal);
        self.graph.clone_insert(&bad, &self.predicate_a, &self.node_a);
        let ghost tbad = (bad@, self.predicate_a@, self.node_a@);
        let valid_before = self.graph.is_valid_graph();
        proof {
            assert(self.graph.contents().contains(tbad));
            assert(!wf_triple(tbad));
        }
        assert(!valid_before);
        self.graph.sanitize();
        let valid_after = self.graph.is_valid_graph();
        assert(valid_after);
    }

    /// Containment answers exactly per the base set.
    fn contains(&mut self)
        requires
            old(self).wf(),
        ensures
            final(self).nodes_wf(),
            final(self).graph.inv(),
    {
        proof {
            self.lemma_base();
            self.lemma_labels();
        }
        let c1 = self.graph.contains(&self.node_a, &self.predicate_a, &self.node_b);
        let c2 = self.graph.contains(&self.node_b, &self.predicate_b, &self.node_c);
        let c3 = self.graph.contains(&self.node_c, &self.predicate_c, &self.node_a);
        assert(c1 && c2 && c3);
        let c4 = self.graph.contains(&self.node_a, &self.predicate_b, &self.node_b);
        proof {
            let probe = (self.node_a@, self.predicate_b@, self.node_b@);
            assert(probe != self.t1() && probe != self.t2() && probe != self.t3());
        }
        assert(!c4);
    }

    /// After removing one triple, iteration yields the other two.
    fn remove(&mut self)
        requires
            old(self).wf(),
        ensures
            final(self).nodes_wf(),
            final(self).graph.inv(),
    {
        proof {
            self.lemma_base();
        }
        self.graph.remove(&self.node_c, &self.predicate_c, &self.node_a);
        let collected = self.graph.triples();
        proof {
            views_of(collected@).unique_seq_to_set();
            assert(self.graph.contents() =~= set![self.t1(), self.t2()]);
        }
        assert(collected.len() == 2);
        assert(views_of(collected@).to_set().contains(self.t1()));
        assert(views_of(collected@).to_set().contains(self.t2()));
    }

    /// Retaining only blank-object triples keeps exactly one.
    fn retain(&mut self)
        requires
            old(self).wf(),
        ensures
            final(self).nodes_wf(),
            final(self).graph.inv(),
    {
        proof {
            self.lemma_base();
            self.lemma_labels();
        }
        let keep = |s: &Node, p: &Node, o: &Node| -> (b: bool)
            ensures
                b == o@.is_blank(),
            { o.is_blank() };
        self.graph.retain(keep);
        proof {
            assert forall|t: TripleView| #[trigger] self.graph.contents().contains(t) implies t
                == self.t2() by {
                let (s, p, o) = choose|s: Node, p: Node, o: Node|
                    (s@, p@, o@) == t && #[trigger] call_ensures(keep, (&s, &p, &o), true);
            };
            if !self.graph.contents().contains(self.t2()) {
                let (s, p, o) = choose|s: Node, p: Node, o: Node|
                    (s@, p@, o@) == self.t2() && #[trigger] call_ensures(
                        keep,
                        (&s, &p, &o),
                        false,
                    );
            }
            assert(self.graph.contents() =~= set![self.t2()]);
        }
        let n = self.graph.len();
        assert(n == 1);
    }

    /// Extending with six triples, three of them already present, gives a
    /// store of six distinct triples.
    fn extend(&mut self)
        requires
            old(self).wf(),
        ensures
            final(self).nodes_wf(),
            final(self).graph.inv(),
    {
        proof {
            self.lemma_base();
            self.lemma_labels();
        }
        let mut batch: Vec<Triple> = Vec::new();
        batch.push(
            Triple::new(self.node_a.clone(), self.predicate_a.clone(), self.node_b.clone()),
        );
        batch.push(
            Triple::new(self.node_b.clone(), self.predicate_b.clone(), self.node_c.clone()),
        );
        batch.push(
            Triple::new(self.node_c.clone(), self.predicate_c.clone(), self.node_a.clone()),
        );
        batch.push(
            Triple::new(self.node_a.clone(), self.predicate_a.clone(), self.node_c.clone()),
        );
        batch.push(
            Triple::new(self.node_b.clone(), self.predicate_b.clone(), self.node_a.clone()),
        );
        batch.push(
            Triple::new(self.node_c.clone(), self.predicate_c.clone(), self.node_b.clone()),
        );
        let ghost t4 = (self.node_a@, self.predicate_a@, self.node_c@);
        let ghost t5 = (self.node_b@, self.predicate_b@, self.node_a@);
        let ghost t6 = (self.node_c@, self.predicate_c@, self.node_b@);
        self.graph.clone_extend(&batch);
        proof {
            let bv = views_of(batch@);
            let target = set![self.t1(), self.t2(), self.t3(), t4, t5, t6];
            assert(bv.len() == 6);
            assert(bv[0] == self.t1());
            assert(bv[1] == self.t2());
            assert(bv[2] == self.t3());
            assert(bv[3] == t4);
            assert(bv[4] == t5);
            assert(bv[5] == t6);
            assert forall|e: TripleView| bv.to_set().contains(e) implies #[trigger] target.contains(
                e,
            ) by {
                let j = choose|j: int| 0 <= j < bv.len() && bv[j] == e;
            };
            assert(bv.contains(bv[0]));
            assert(bv.contains(bv[1]));
            assert(bv.contains(bv[2]));
            assert(bv.contains(bv[3]));
            assert(bv.contains(bv[4]));
            assert(bv.contains(bv[5]));
            assert(views_of(batch@).to_set() =~= set![
                self.t1(),
                self.t2(),
                self.t3(),
                t4,
                t5,
                t6,
            ]);
            assert(self.graph.contents() =~= set![self.t1(), self.t2(), self.t3(), t4, t5, t6]);
            assert(t4 != self.t1() && t4 != self.t2() && t4 != self.t3());
            assert(t5 != self.t1() && t5 != self.t2() && t5 != self.t3());
            assert(t6 != self.t1() && t6 != self.t2() && t6 != self.t3());
            assert(t4 != t5 && t4 != t6 && t5 != t6);
        }
        let n = self.graph.len();
        assert(n == 6);
        let c1 = self.graph.contains(&self.node_a, &self.predicate_a, &self.node_b);
        let c2 = self.graph.contains(&self.node_b, &self.predicate_b, &self.node_c);
        let c3 = self.graph.contains(&self.node_c, &self.predicate_c, &self.node_a);
        let c4 = self.graph.contains(&self.node_a, &self.predicate_a, &self.node_c);
        let c5 = self.graph.contains(&self.node_b, &self.predicate_b, &self.node_a);
        let c6 = self.graph.contains(&self.node_c, &self.predicate_c, &self.node_b);
        assert(c1 && c2 && c3 && c4 && c5 && c6);
    }

    /// Repeating an insertion or a removal a second time changes nothing.
    fn duplicate_actions(&mut self)
        requires
            old(self).wf(),
        ensures
            final(self).nodes_wf(),
            final(self).graph.inv(),
    {
        proof {
            self.lemma_base();
            self.lemma_labels();
        }
        let ghost taa = (self.node_a@, self.predicate_a@, self.node_a@);
        proof {
            assert(taa != self.t1() && taa != self.t2() && taa != self.t3());
        }
        let n0 = self.graph.len();
        assert(n0 == 3);

        self.graph.clone_insert(&self.node_a, &self.predicate_a, &self.node_a);
        self.graph.clone_insert(&self.node_a, &self.predicate_a, &self.node_a);
        proof {
            assert(self.graph.contents() =~= self.base().insert(taa));
        }
        let n1 = self.graph.len();
        assert(n1 == 4);

        self.graph.remove(&self.node_a, &self.predicate_a, &self.node_a);
        self.graph.remove(&self.node_a, &self.predicate_a, &self.node_a);
        proof {
            assert(self.graph.contents() =~= self.base());
        }
        let n2 = self.graph.len();
        assert(n2 == 3);

        self.graph.remove(&self.node_a, &self.predicate_a, &self.node_b);
        self.graph.remove(&self.node_a, &self.predicate_a, &self.node_b);
        proof {
            assert(self.graph.contents() =~= set![self.t2(), self.t3()]);
        }
        let n3 = self.graph.len();
        assert(n3 == 2);
        let gone = self.graph.contains(&self.node_a, &self.predicate_a, &self.node_b);
        assert(!gone);

        self.graph.clone_insert(&self.node_a, &self.predicate_a, &self.node_b);
        self.graph.clone_insert(&self.node_a, &self.predicate_a, &self.node_b);
        proof {
            assert(self.graph.contents() =~= self.base());
        }
        let n4 = self.graph.len();
        assert(n4 == 3);
    }

    /// Drive the store through every capability; every check along the way
    /// is proved from the `Graph` contract.
    pub fn validate(&mut self)
        requires
            old(self).nodes_wf(),
            old(self).graph.inv(),
        ensures
            final(self).wf(),
    {
        self.restore_graph();
        self.len();
        self.restore_graph();
        self.is_empty();
        self.restore_graph();
        self.iter();
        self.is_valid_rdf();
        self.restore_graph();
        self.contains();
        self.restore_graph();
        self.remove();
        self.restore_graph();
        self.retain();
        self.restore_graph();
        self.extend();
        self.restore_graph();
        self.duplicate_actions();
        self.restore_graph();
    }
}

} // verus!
