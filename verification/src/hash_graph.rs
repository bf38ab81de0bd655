use vstd::prelude::*;

verus! {

use crate::graph::Graph;
use crate::graph::Triple;
use crate::graph::TripleView;
use crate::graph::views_of;
use crate::node::Node;
use crate::node::NodeView;

/// The sequence of node values that a vector of nodes denotes.
pub open spec fn node_views_of(v: Seq<Node>) -> Seq<NodeView> {
    v.map_values(|n: Node| n@)
}

/// The concrete triple store. A hash-keyed subject index would put the
/// store's behaviour at the mercy of unspecified hashing, so this store
/// holds its triples in one deduplicated vector and proves every query
/// against the set of triple values it holds; the subject-keyed lookups
/// (`contains_subject`, `subjects`, `relationships`, `objects`) are offered
/// with exact contracts of their own. No order is ever promised.
pub struct HashGraph {
    triples: Vec<Triple>,
}

impl HashGraph {
    /// The triple values in storage order.
    pub closed spec fn tseq(&self) -> Seq<TripleView> {
        views_of(self.triples@)
    }

    /// Create a new, empty graph.
    pub fn new() -> (g: HashGraph)
        ensures
            g.inv(),
            g.contents() == Set::<TripleView>::empty(),
    {
        let g = HashGraph { triples: Vec::new() };
        proof {
            assert(g.tseq() =~= Seq::<TripleView>::empty());
            assert(g.tseq().to_set() =~= Set::<TripleView>::empty());
        }
        g
    }

    /// Create a new, empty graph with room for about `n_triples` triples.
    pub fn with_capacity(n_triples: usize) -> (g: HashGraph)
        ensures
            g.inv(),
            g.contents() == Set::<TripleView>::empty(),
    {
        let g = HashGraph { triples: Vec::with_capacity(n_triples) };
        proof {
            assert(g.tseq() =~= Seq::<TripleView>::empty());
            assert(g.tseq().to_set() =~= Set::<TripleView>::empty());
        }
        g
    }

    /// Drop unused storage; the contents stay as they are.
    pub fn shrink_to_fit(&mut self)
        requires
            old(self).inv(),
        ensures
            final(self).inv(),
            final(self).contents() == old(self).contents(),
    {
        vec_shrink(&mut self.triples);
    }

    /// Collect a vector of triples into a fresh graph.
    pub fn from_triples(triples: Vec<Triple>) -> (g: HashGraph)
        ensures
            g.inv(),
            g.contents() == views_of(triples@).to_set(),
    {
        let mut g = HashGraph::new();
        g.extend(triples);
        proof {
            assert(g.contents() =~= views_of(triples@).to_set());
        }
        g
    }

    /// Whether some triple of the graph has this node as its subject.
    #[verifier::loop_isolation(false)]
    pub fn contains_subject(&self, node: &Node) -> (r: bool)
        requires
            self.inv(),
        ensures
            r == exists|t: TripleView| #[trigger] self.contents().contains(t) && t.0 == node@,
    {
        let n = self.triples.len();
        let mut i: usize = 0;
        while i < n
            invariant
                n == self.triples.len(),
                0 <= i <= n,
                forall|j: int| 0 <= j < i ==> #[trigger] self.tseq()[j].0 != node@,
            decreases n - i,
        {
            if self.triples[i].subject.node_eq(node) {
                proof {
                    assert(self.tseq()[i as int] == self.triples@[i as int]@);
                    assert(self.tseq().contains(self.tseq()[i as int]));
                    assert(self.contents().contains(self.tseq()[i as int]));
                }
                return true;
            }
            proof {
                assert(self.tseq()[i as int] == self.triples@[i as int]@);
            }
            i = i + 1;
        }
        proof {
            assert forall|t: TripleView| self.contents().contains(t) implies #[trigger] t.0
                != node@ by {
                assert(self.tseq().contains(t));
                let j = choose|j: int| 0 <= j < self.tseq().len() && self.tseq()[j] == t;
            };
        }
        false
    }

    /// All distinct subjects of the graph, each exactly once.
    #[verifier::loop_isolation(false)]
    pub fn subjects(&self) -> (v: Vec<Node>)
        requires
            self.inv(),
        ensures
            node_views_of(v@).no_duplicates(),
            node_views_of(v@).to_set() == self.contents().map(|t: TripleView| t.0),
    {
        broadcast use vstd::seq_lib::group_seq_properties;

        let n = self.triples.len();
        let mut out: Vec<Node> = Vec::new();
        let mut i: usize = 0;
        while i < n
            invariant
                self.inv(),
                n == self.triples.len(),
                0 <= i <= n,
                node_views_of(out@).no_duplicates(),
                forall|e: NodeView| #[trigger]
                    node_views_of(out@).contains(e) ==> exists|j: int|
                        0 <= j < i && #[trigger] self.tseq()[j].0 == e,
                forall|j: int|
                    0 <= j < i ==> node_views_of(out@).contains(#[trigger] self.tseq()[j].0),
            decreases n - i,
        {
            let s = &self.triples[i].subject;
            proof {
                assert(self.tseq()[i as int] == self.triples@[i as int]@);
            }
            if !node_vec_contains(&out, s) {
                let ghost prefix = out@;
                out.push(s.clone());
                proof {
                    assert(node_views_of(out@) =~= node_views_of(prefix).push(s@));
                    assert forall|e: NodeView| #[trigger]
                        node_views_of(out@).contains(e) implies exists|j: int|
                        0 <= j < i + 1 && #[trigger] self.tseq()[j].0 == e by {
                        if node_views_of(prefix).contains(e) {
                        } else {
                            assert(e == s@);
                            assert(self.tseq()[i as int].0 == e);
                        }
                    };
                    assert forall|j: int| 0 <= j < i + 1 implies node_views_of(out@).contains(
                        #[trigger] self.tseq()[j].0,
                    ) by {
                        if j < i {
                            assert(node_views_of(prefix).contains(self.tseq()[j].0));
                        } else {
                            assert(node_views_of(out@).contains(s@));
                        }
                    };
                }
            } else {
                proof {
                    assert forall|j: int| 0 <= j < i + 1 implies node_views_of(out@).contains(
                        #[trigger] self.tseq()[j].0,
                    ) by {
                        if j == i {
                            assert(node_views_of(out@).contains(s@));
                        }
                    };
                }
            }
            i = i + 1;
        }
        proof {
            let m = self.contents().map(|t: TripleView| t.0);
            assert forall|e: NodeView| node_views_of(out@).to_set().contains(e) implies #[trigger] m.contains(
                e,
            ) by {
                let j = choose|j: int| 0 <= j < n && #[trigger] self.tseq()[j].0 == e;
                assert(self.tseq().contains(self.tseq()[j]));
                assert(self.contents().contains(self.tseq()[j]));
            };
            assert forall|e: NodeView| #[trigger] m.contains(e) implies node_views_of(
                out@,
            ).to_set().contains(e) by {
                let t = choose|t: TripleView| #[trigger] self.contents().contains(t) && t.0 == e;
                assert(self.tseq().contains(t));
                let j = choose|j: int| 0 <= j < self.tseq().len() && self.tseq()[j] == t;
                assert(node_views_of(out@).contains(self.tseq()[j].0));
            };
            assert(node_views_of(out@).to_set() =~= m);
        }
        out
    }

    /// All triples whose subject is the given node, each exactly once.
    #[verifier::loop_isolation(false)]
    pub fn relationships(&self, subject: &Node) -> (v: Vec<Triple>)
        requires
            self.inv(),
        ensures
            views_of(v@).no_duplicates(),
            views_of(v@).to_set() == self.contents().filter(|t: TripleView| t.0 == subject@),
    {
        broadcast use vstd::seq_lib::group_seq_properties;

        let n = self.triples.len();
        let mut out: Vec<Triple> = Vec::new();
        let mut i: usize = 0;
        while i < n
            invariant
                self.inv(),
                n == self.triples.len(),
                0 <= i <= n,
                views_of(out@).no_duplicates(),
                forall|e: TripleView| #[trigger]
                    views_of(out@).contains(e) ==> e.0 == subject@ && exists|j: int|
                        0 <= j < i && #[trigger] self.tseq()[j] == e,
                forall|j: int|
                    0 <= j < i && #[trigger] self.tseq()[j].0 == subject@ ==> views_of(
                        out@,
                    ).contains(self.tseq()[j]),
            decreases n - i,
        {
            proof {
                assert(self.tseq()[i as int] == self.triples@[i as int]@);
            }
            if self.triples[i].subject.node_eq(subject) {
                let ghost prefix = out@;
                proof {
                    if views_of(prefix).contains(self.tseq()[i as int]) {
                        let j = choose|j: int|
                            0 <= j < i && #[trigger] self.tseq()[j] == self.tseq()[i as int];
                        assert(false);
                    }
                }
                out.push(self.triples[i].clone());
                proof {
                    assert(views_of(out@) =~= views_of(prefix).push(self.tseq()[i as int]));
                    assert forall|e: TripleView| #[trigger]
                        views_of(out@).contains(e) implies e.0 == subject@ && exists|j: int|
                        0 <= j < i + 1 && #[trigger] self.tseq()[j] == e by {
                        if views_of(prefix).contains(e) {
                        } else {
                            assert(e == self.tseq()[i as int]);
                        }
                    };
                    assert forall|j: int|
                        0 <= j < i + 1 && #[trigger] self.tseq()[j].0 == subject@ implies views_of(
                        out@,
                    ).contains(self.tseq()[j]) by {
                        if j < i {
                            assert(views_of(prefix).contains(self.tseq()[j]));
                        } else {
                            assert(views_of(out@).contains(self.tseq()[i as int]));
                        }
                    };
                }
            }
            i = i + 1;
        }
        proof {
            let flt = self.contents().filter(|t: TripleView| t.0 == subject@);
            assert forall|e: TripleView| views_of(out@).to_set().contains(e) implies #[trigger] flt.contains(
                e,
            ) by {
                let j = choose|j: int| 0 <= j < n && #[trigger] self.tseq()[j] == e;
                assert(self.tseq().contains(self.tseq()[j]));
                assert(self.contents().contains(e));
            };
            assert forall|e: TripleView| #[trigger] flt.contains(e) implies views_of(
                out@,
            ).to_set().contains(e) by {
                assert(self.tseq().contains(e));
                let j = choose|j: int| 0 <= j < self.tseq().len() && self.tseq()[j] == e;
                assert(views_of(out@).contains(self.tseq()[j]));
            };
            assert(views_of(out@).to_set() =~= flt);
        }
        out
    }

    /// Exact containment test for one triple; the same answer as
    /// [`Graph::contains`].
    pub fn contains_triple(&self, subject: &Node, predicate: &Node, object: &Node) -> (r: bool)
        requires
            self.inv(),
        ensures
            r == self.contents().contains((subject@, predicate@, object@)),
    {
        self.contains(subject, predicate, object)
    }

    /// All triples with the given subject and predicate, each exactly
    /// once.
    #[verifier::loop_isolation(false)]
    pub fn objects(&self, subject: &Node, predicate: &Node) -> (v: Vec<Triple>)
        requires
            self.inv(),
        ensures
            views_of(v@).no_duplicates(),
            views_of(v@).to_set() == self.contents().filter(
                |t: TripleView| t.0 == subject@ && t.1 == predicate@,
            ),
    {
        broadcast use vstd::seq_lib::group_seq_properties;

        let n = self.triples.len();
        let mut out: Vec<Triple> = Vec::new();
        let mut i: usize = 0;
        while i < n
            invariant
                self.inv(),
                n == self.triples.len(),
                0 <= i <= n,
                views_of(out@).no_duplicates(),
                forall|e: TripleView| #[trigger]
                    views_of(out@).contains(e) ==> e.0 == subject@ && e.1 == predicate@
                        && exists|j: int| 0 <= j < i && #[trigger] self.tseq()[j] == e,
                forall|j: int|
                    0 <= j < i && #[trigger] self.tseq()[j].0 == subject@ && self.tseq()[j].1
                        == predicate@ ==> views_of(out@).contains(self.tseq()[j]),
            decreases n - i,
        {
            proof {
                assert(self.tseq()[i as int] == self.triples@[i as int]@);
            }
            if self.triples[i].subject.node_eq(subject) && self.triples[i].predicate.node_eq(
                predicate,
            ) {
                let ghost prefix = out@;
                proof {
                    if views_of(prefix).contains(self.tseq()[i as int]) {
                        let j = choose|j: int|
                            0 <= j < i && #[trigger] self.tseq()[j] == self.tseq()[i as int];
                        assert(false);
                    }
                }
                out.push(self.triples[i].clone());
                proof {
                    assert(views_of(out@) =~= views_of(prefix).push(self.tseq()[i as int]));
                    assert forall|j: int|
                        0 <= j < i + 1 && #[trigger] self.tseq()[j].0 == subject@
                            && self.tseq()[j].1 == predicate@ implies views_of(out@).contains(
                        self.tseq()[j],
                    ) by {
                        if j < i {
                            assert(views_of(prefix).contains(self.tseq()[j]));
                        } else {
                            assert(views_of(out@).contains(self.tseq()[i as int]));
                        }
                    };
                }
            }
            i = i + 1;
        }
        proof {
            let flt = self.contents().filter(
                |t: TripleView| t.0 == subject@ && t.1 == predicate@,
            );
            assert forall|e: TripleView| views_of(out@).to_set().contains(e) implies #[trigger] flt.contains(
                e,
            ) by {
                let j = choose|j: int| 0 <= j < n && #[trigger] self.tseq()[j] == e;
                assert(self.tseq().contains(self.tseq()[j]));
                assert(self.contents().contains(e));
            };
            assert forall|e: TripleView| #[trigger] flt.contains(e) implies views_of(
                out@,
            ).to_set().contains(e) by {
                assert(self.tseq().contains(e));
                let j = choose|j: int| 0 <= j < self.tseq().len() && self.tseq()[j] == e;
                assert(views_of(out@).contains(self.tseq()[j]));
            };
            assert(views_of(out@).to_set() =~= flt);
        }
        out
    }

    /// The triples of this graph that `other` does not contain.
    pub fn difference(&self, other: &HashGraph) -> (v: Vec<Triple>)
        requires
            self.inv(),
            other.inv(),
        ensures
            views_of(v@).no_duplicates(),
            views_of(v@).to_set() == self.contents().difference(other.contents()),
    {
        crate::set::difference(self, other)
    }

    /// The triples held by exactly one of the two graphs.
    pub fn symmetric_difference(&self, other: &HashGraph) -> (v: Vec<Triple>)
        requires
            self.inv(),
            other.inv(),
        ensures
            views_of(v@).no_duplicates(),
            views_of(v@).to_set() == self.contents().difference(other.contents()).union(
                other.contents().difference(self.contents()),
            ),
    {
        crate::set::symmetric_difference(self, other)
    }

    /// The triples the two graphs share.
    pub fn intersection(&self, other: &HashGraph) -> (v: Vec<Triple>)
        requires
            self.inv(),
            other.inv(),
        ensures
            views_of(v@).no_duplicates(),
            views_of(v@).to_set() == self.contents().intersect(other.contents()),
    {
        crate::set::intersection(self, other)
    }

    /// Every triple of this graph, then every triple of `other` that this
    /// graph lacks.
    pub fn union(&self, other: &HashGraph) -> (v: Vec<Triple>)
        requires
            self.inv(),
            other.inv(),
        ensures
            views_of(v@).no_duplicates(),
            views_of(v@).to_set() == self.contents().union(other.contents()),
            v@.len() == self.contents().len() + other.contents().difference(
                self.contents(),
            ).len(),
    {
        crate::set::union(self, other)
    }

    /// Whether `other` contains every triple of this graph.
    pub fn is_subset(&self, other: &HashGraph) -> (r: bool)
        requires
            self.inv(),
            other.inv(),
        ensures
            r == self.contents().subset_of(other.contents()),
    {
        crate::set::is_subset(self, other)
    }

    /// Whether this graph contains every triple of `other`.
    pub fn is_superset(&self, other: &HashGraph) -> (r: bool)
        requires
            self.inv(),
            other.inv(),
        ensures
            r == other.contents().subset_of(self.contents()),
    {
        crate::set::is_superset(self, other)
    }

    /// Whether the two graphs have no triple in common.
    pub fn is_disjoint(&self, other: &HashGraph) -> (r: bool)
        requires
            self.inv(),
            other.inv(),
        ensures
            r == self.contents().disjoint(other.contents()),
    {
        crate::set::is_disjoint(self, other)
    }

    /// Find the storage index of a triple value, if the graph holds it.
    #[verifier::loop_isolation(false)]
    fn find(&self, subject: &Node, predicate: &Node, object: &Node) -> (r: Option<usize>)
        requires
            self.inv(),
        ensures
            match r {
                Some(i) => i < self.tseq().len() && self.tseq()[i as int] == (
                    subject@,
                    predicate@,
                    object@,
                ),
                None => !self.contents().contains((subject@, predicate@, object@)),
            },
    {
        let ghost tv = (subject@, predicate@, object@);
        let n = self.triples.len();
        let mut i: usize = 0;
        while i < n
            invariant
                self.inv(),
                n == self.triples.len(),
                0 <= i <= n,
                forall|j: int| 0 <= j < i ==> #[trigger] self.tseq()[j] != tv,
            decreases n - i,
        {
            let t = &self.triples[i];
            proof {
                assert(self.tseq()[i as int] == self.triples@[i as int]@);
            }
            let hit = t.subject.node_eq(subject) && t.predicate.node_eq(predicate)
                && t.object.node_eq(object);
            if hit {
                return Some(i);
            }
            proof {
                assert(*t == self.triples@[i as int]);
                assert(t@ == self.tseq()[i as int]);
                assert(t.subject@ != subject@ || t.predicate@ != predicate@ || t.object@
                    != object@);
                assert(t@ == (t.subject@, t.predicate@, t.object@));
                assert(tv == (subject@, predicate@, object@));
                assert(self.tseq()[i as int] != tv);
            }
            i = i + 1;
        }
        proof {
            if self.contents().contains(tv) {
                assert(self.tseq().contains(tv));
                let j = choose|j: int| 0 <= j < self.tseq().len() && self.tseq()[j] == tv;
                assert(false);
            }
        }
        None
    }
}

impl Default for HashGraph {
    /// The empty graph.
    fn default() -> (g: Self)
        ensures
            g.inv(),
            g.contents() == Set::<TripleView>::empty(),
    {
        HashGraph::new()
    }
}

/// A lazy, restartable walk over the triples of a graph: each `next` hands
/// out one triple, cloned, without the graph ever being materialized into
/// another collection.
pub struct TripleIter<'a> {
    graph: &'a HashGraph,
    at: usize,
}

impl<'a> TripleIter<'a> {
    /// Start a walk at the first triple.
    pub fn new(graph: &'a HashGraph) -> (it: TripleIter<'a>)
        ensures
            it.graph() == graph,
            it.position() == 0,
    {
        TripleIter { graph, at: 0 }
    }

    pub closed spec fn graph(&self) -> &'a HashGraph {
        self.graph
    }

    pub closed spec fn position(&self) -> nat {
        self.at as nat
    }

    /// The next triple of the walk, or nothing once every triple has been
    /// handed out.
    pub fn next(&mut self) -> (r: Option<Triple>)
        requires
            old(self).graph().inv(),
        ensures
            final(self).graph() == old(self).graph(),
            old(self).position() < old(self).graph().tseq().len() ==> {
                &&& final(self).position() == old(self).position() + 1
                &&& r matches Some(t) && t@ == old(self).graph().tseq()[
                    old(self).position() as int
                ]
            },
            old(self).position() >= old(self).graph().tseq().len() ==> r is None
                && final(self).position() == old(self).position(),
    {
        if self.at < self.graph.triples.len() {
            let t = self.graph.triples[self.at].clone();
            proof {
                assert(self.graph.tseq()[self.at as int] == self.graph.triples@[self.at as int]@);
            }
            self.at = self.at + 1;
            Some(t)
        } else {
            None
        }
    }
}

impl HashGraph {
    /// A lazy walk over the triples of this graph.
    pub fn iter<'a>(&'a self) -> (it: TripleIter<'a>)
        ensures
            it.graph() == self,
            it.position() == 0,
    {
        TripleIter::new(self)
    }
}

/// Relies on `Vec::shrink_to_fit`: it changes only spare capacity, never
/// the elements.
#[verifier::external_body]
fn vec_shrink(v: &mut Vec<Triple>)
    ensures
        final(v)@ == old(v)@,
{
    v.shrink_to_fit()
}

/// Whether the vector holds a node with this value.
#[verifier::loop_isolation(false)]
fn node_vec_contains(v: &Vec<Node>, node: &Node) -> (r: bool)
    ensures
        r == node_views_of(v@).contains(node@),
{
    let n = v.len();
    let mut i: usize = 0;
    while i < n
        invariant
            n == v.len(),
            0 <= i <= n,
            forall|j: int| 0 <= j < i ==> #[trigger] node_views_of(v@)[j] != node@,
        decreases n - i,
    {
        proof {
            assert(node_views_of(v@)[i as int] == v@[i as int]@);
        }
        if v[i].node_eq(node) {
            return true;
        }
        i = i + 1;
    }
    proof {
        if node_views_of(v@).contains(node@) {
            let j = choose|j: int|
                0 <= j < node_views_of(v@).len() && node_views_of(v@)[j] == node@;
            assert(false);
        }
    }
    false
}

impl Graph for HashGraph {
    closed spec fn contents(&self) -> Set<TripleView> {
        self.tseq().to_set()
    }

    closed spec fn inv(&self) -> bool {
        self.tseq().no_duplicates()
    }

    proof fn lemma_contents_finite(&self) {
        broadcast use vstd::seq_lib::seq_to_set_is_finite;

    }

    fn len(&self) -> (n: usize) {
        proof {
            self.tseq().unique_seq_to_set();
        }
        self.triples.len()
    }

    fn is_empty(&self) -> (r: bool) {
        proof {
            if self.tseq().len() == 0 {
                assert(self.tseq().to_set() =~= Set::<TripleView>::empty());
            } else {
                assert(self.tseq().contains(self.tseq()[0]));
                assert(self.contents().contains(self.tseq()[0]));
            }
        }
        self.triples.is_empty()
    }

    fn contains(&self, subject: &Node, predicate: &Node, object: &Node) -> (r: bool) {
        match self.find(subject, predicate, object) {
            Some(i) => {
                proof {
                    assert(self.tseq().contains(self.tseq()[i as int]));
                }
                true
            },
            None => false,
        }
    }

    #[verifier::loop_isolation(false)]
    fn triples(&self) -> (v: Vec<Triple>) {
        let n = self.triples.len();
        let mut out: Vec<Triple> = Vec::new();
        let mut i: usize = 0;
        while i < n
            invariant
                self.inv(),
                n == self.triples.len(),
                0 <= i <= n,
                views_of(out@) =~= self.tseq().take(i as int),
            decreases n - i,
        {
            broadcast use vstd::seq_lib::group_seq_properties;

            let ghost prefix = out@;
            out.push(self.triples[i].clone());
            proof {
                assert(self.tseq()[i as int] == self.triples@[i as int]@);
                assert(views_of(out@) =~= views_of(prefix).push(self.tseq()[i as int]));
                assert(self.tseq().take(i as int + 1) =~= self.tseq().take(i as int).push(
                    self.tseq()[i as int],
                ));
            }
            i = i + 1;
        }
        proof {
            assert(self.tseq().take(n as int) =~= self.tseq());
            assert(views_of(out@).to_set() =~= self.contents());
        }
        out
    }

    fn insert(&mut self, subject: Node, predicate: Node, object: Node) {
        broadcast use vstd::seq_lib::group_seq_properties;

        let ghost tv = (subject@, predicate@, object@);
        if self.contains(&subject, &predicate, &object) {
            proof {
                assert(self.contents().insert(tv) =~= self.contents());
            }
        } else {
            let ghost prefix = self.triples@;
            self.triples.push(Triple::new(subject, predicate, object));
            proof {
                assert(self.tseq() =~= views_of(prefix).push(tv));
                views_of(prefix).lemma_push_to_set_commute(tv);
                assert(self.tseq().to_set() =~= views_of(prefix).to_set().insert(tv));
                assert forall|p: int, q: int|
                    0 <= p < self.tseq().len() && 0 <= q < self.tseq().len() && p != q implies
                    self.tseq()[p] != self.tseq()[q] by {
                    if p < self.tseq().len() - 1 && q < self.tseq().len() - 1 {
                    } else {
                        assert(!views_of(prefix).to_set().contains(tv));
                    }
                };
            }
        }
    }

    fn remove(&mut self, subject: &Node, predicate: &Node, object: &Node) {
        broadcast use vstd::seq_lib::group_seq_properties;

        let ghost tv = (subject@, predicate@, object@);
        match self.find(subject, predicate, object) {
            Some(i) => {
                let ghost prefix = self.triples@;
                self.triples.remove(i);
                proof {
                    lemma_views_remove(prefix, i as int);
                    lemma_no_dup_remove(views_of(prefix), i as int);
                }
            },
            None => {
                proof {
                    assert(self.contents().remove(tv) =~= self.contents());
                }
            },
        }
    }

    fn clear(&mut self) {
        self.triples.clear();
        proof {
            assert(self.tseq() =~= Seq::<TripleView>::empty());
            assert(self.tseq().to_set() =~= Set::<TripleView>::empty());
        }
    }

    #[verifier::loop_isolation(false)]
    fn retain<F: Fn(&Node, &Node, &Node) -> bool>(&mut self, f: F) {
        broadcast use vstd::seq_lib::group_seq_properties;

        let n = self.triples.len();
        let mut kept: Vec<Triple> = Vec::new();
        let mut i: usize = 0;
        while i < n
            invariant
                old(self) == self,
                self.inv(),
                n == self.triples.len(),
                0 <= i <= n,
                forall|s: Node, p: Node, o: Node| #[trigger] call_requires(f, (&s, &p, &o)),
                views_of(kept@).no_duplicates(),
                forall|e: TripleView| #[trigger]
                    views_of(kept@).contains(e) ==> self.tseq().take(i as int).contains(e),
                forall|e: TripleView| #[trigger]
                    views_of(kept@).contains(e) ==> exists|s: Node, p: Node, o: Node|
                        (s@, p@, o@) == e && #[trigger] call_ensures(f, (&s, &p, &o), true),
                forall|j: int|
                    0 <= j < i && !views_of(kept@).contains(#[trigger] self.tseq()[j]) ==> exists|
                        s: Node,
                        p: Node,
                        o: Node,
                    |
                        (s@, p@, o@) == self.tseq()[j] && #[trigger] call_ensures(
                            f,
                            (&s, &p, &o),
                            false,
                        ),
            decreases n - i,
        {
            let t = &self.triples[i];
            proof {
                assert(self.tseq()[i as int] == self.triples@[i as int]@);
            }
            let b = f(&t.subject, &t.predicate, &t.object);
            if b {
                let ghost prefix = kept@;
                proof {
                    if views_of(prefix).contains(self.tseq()[i as int]) {
                        assert(self.tseq().take(i as int).contains(self.tseq()[i as int]));
                        let j = choose|j: int|
                            0 <= j < i && self.tseq().take(i as int)[j] == self.tseq()[i as int];
                        assert(false);
                    }
                }
                kept.push(t.clone());
                proof {
                    assert(views_of(kept@) =~= views_of(prefix).push(self.tseq()[i as int]));
                    assert forall|e: TripleView| #[trigger]
                        views_of(kept@).contains(e) implies self.tseq().take(
                        i as int + 1,
                    ).contains(e) by {
                        if views_of(prefix).contains(e) {
                            let j = choose|j: int|
                                0 <= j < i && self.tseq().take(i as int)[j] == e;
                            assert(self.tseq().take(i as int + 1)[j] == e);
                        } else {
                            assert(self.tseq().take(i as int + 1)[i as int] == e);
                        }
                    };
                }
            } else {
                proof {
                    assert forall|e: TripleView| #[trigger]
                        views_of(kept@).contains(e) implies self.tseq().take(
                        i as int + 1,
                    ).contains(e) by {
                        let j = choose|j: int| 0 <= j < i && self.tseq().take(i as int)[j] == e;
                        assert(self.tseq().take(i as int + 1)[j] == e);
                    };
                    if views_of(kept@).contains(self.tseq()[i as int]) {
                        assert(self.tseq().take(i as int).contains(self.tseq()[i as int]));
                        let j = choose|j: int|
                            0 <= j < i && self.tseq().take(i as int)[j] == self.tseq()[i as int];
                        assert(false);
                    }
                }
            }
            i = i + 1;
        }
        proof {
            assert(self.tseq().take(n as int) =~= self.tseq());
        }
        self.triples = kept;
        proof {
            assert forall|e: TripleView| #[trigger] self.contents().contains(e) implies old(
                self,
            ).contents().contains(e) by {
                assert(old(self).tseq().contains(e));
            };
            assert forall|e: TripleView|
                old(self).contents().contains(e) && !#[trigger] self.contents().contains(
                    e,
                ) implies exists|s: Node, p: Node, o: Node|
                (s@, p@, o@) == e && #[trigger] call_ensures(f, (&s, &p, &o), false) by {
                assert(old(self).tseq().contains(e));
                let j = choose|j: int|
                    0 <= j < old(self).tseq().len() && old(self).tseq()[j] == e;
                assert(!views_of(self.triples@).contains(e));
            };
        }
    }
}

impl crate::graph::SnapshotGraph for HashGraph {
    fn snapshot(&self) -> (g: Self) {
        HashGraph::from_triples(self.triples())
    }
}

/// Removing one entry of a vector removes its value from the view sequence.
proof fn lemma_views_remove(v: Seq<Triple>, i: int)
    requires
        0 <= i < v.len(),
    ensures
        views_of(v.remove(i)) =~= views_of(v).remove(i),
{
    broadcast use vstd::seq_lib::group_seq_properties;

}

/// Removing the only occurrence of a value from a duplicate-free sequence
/// removes exactly that value from the set it denotes.
proof fn lemma_no_dup_remove(s: Seq<TripleView>, i: int)
    requires
        s.no_duplicates(),
        0 <= i < s.len(),
    ensures
        s.remove(i).no_duplicates(),
        s.remove(i).to_set() =~= s.to_set().remove(s[i]),
{
    broadcast use vstd::seq_lib::group_seq_properties;

    let r = s.remove(i);
    assert forall|p: int, q: int|
        0 <= p < r.len() && 0 <= q < r.len() && p != q implies r[p] != r[q] by {
        assert(r[p] == if p < i {
            s[p]
        } else {
            s[p + 1]
        });
        assert(r[q] == if q < i {
            s[q]
        } else {
            s[q + 1]
        });
    };
    assert forall|e: TripleView| r.to_set().contains(e) <==> #[trigger] s.to_set().remove(
        s[i],
    ).contains(e) by {
        if r.contains(e) {
            let j = choose|j: int| 0 <= j < r.len() && r[j] == e;
            assert(r[j] == if j < i {
                s[j]
            } else {
                s[j + 1]
            });
            assert(s.contains(e));
            if e == s[i] {
                assert(false);
            }
        }
        if s.contains(e) && e != s[i] {
            let j = choose|j: int| 0 <= j < s.len() && s[j] == e;
            if j < i {
                assert(r[j] == e);
            } else {
                assert(r[j - 1] == e);
            }
            assert(r.contains(e));
        }
    };
}

} // verus!
