use vstd::prelude::*;

verus! {

use crate::graph::Graph;
use crate::graph::SnapshotGraph;
use crate::graph::Triple;
use crate::graph::TripleView;
use crate::hash_graph::HashGraph;
use crate::node::Node;

/// Whether `value` is an answer the query can give for some store that
/// satisfies the graph invariant: the most that can be said of a result
/// computed under a lock that other handles may write through afterwards.
pub open spec fn answers_for_some_store<G: Graph, T, Q: Fn(&G) -> T>(query: Q, value: T) -> bool {
    exists|g: G| g.inv() && #[trigger] call_ensures(query, (&g,), value)
}

/// A store together with its revision counter, as held behind the shared
/// lock. The revision starts at zero and advances by one on every commit.
pub struct IntTransactionGraph<G> {
    pub graph: G,
    pub revision: u64,
}

impl<G: Graph> IntTransactionGraph<G> {
    pub fn new(graph: G) -> (s: Self)
        ensures
            s.graph == graph,
            s.revision == 0,
    {
        IntTransactionGraph { graph, revision: 0 }
    }
}

/// The shared cell behind every handle: one store and its revision,
/// guarded by a single-writer, many-reader lock.
#[verifier::external_body]
#[verifier::reject_recursive_types(G)]
struct SharedCell<G> {
    cell: std::sync::Arc<std::sync::RwLock<IntTransactionGraph<G>>>,
}

/// A shared read guard on the cell; while it lives, no writer can enter.
#[verifier::external_body]
#[verifier::reject_recursive_types(G)]
pub struct ReadGuard<'a, G> {
    guard: std::sync::RwLockReadGuard<'a, IntTransactionGraph<G>>,
}

/// An exclusive write guard on the cell; while it lives, nobody else can
/// enter.
#[verifier::external_body]
#[verifier::reject_recursive_types(G)]
pub struct WriteGuard<'a, G> {
    guard: std::sync::RwLockWriteGuard<'a, IntTransactionGraph<G>>,
}

/// Relies on `Arc::new` and `RwLock::new`: a fresh cell holding `state`.
/// Every state the library ever stores in a cell satisfies `graph.inv()`:
/// this function and `write_back` demand it, and nothing else writes.
#[verifier::external_body]
fn cell_new<G: Graph>(state: IntTransactionGraph<G>) -> (c: SharedCell<G>)
    requires
        state.graph.inv(),
{
    SharedCell { cell: std::sync::Arc::new(std::sync::RwLock::new(state)) }
}

/// Relies on `RwLock::read`: blocks while a writer holds the lock, then
/// grants shared access. A poisoned lock — a writer panicked while holding
/// it — is a fatal condition and stops the process.
#[verifier::external_body]
fn cell_read<'a, G: Graph>(c: &'a SharedCell<G>) -> (g: ReadGuard<'a, G>) {
    let guard = c.cell.read().expect("the store is poisoned: a writer panicked while holding it");
    ReadGuard { guard }
}

/// Relies on `RwLock::try_read`: like `cell_read`, but reports
/// unavailability instead of blocking when a writer holds the lock.
#[verifier::external_body]
fn cell_try_read<'a, G: Graph>(c: &'a SharedCell<G>) -> (g: Option<ReadGuard<'a, G>>) {
    match c.cell.try_read() {
        Ok(guard) => Some(ReadGuard { guard }),
        Err(std::sync::TryLockError::WouldBlock) => None,
        Err(std::sync::TryLockError::Poisoned(_)) => None.expect(
            "the store is poisoned: a writer panicked while holding it",
        ),
    }
}

/// Relies on `RwLock::write`: blocks until exclusive access is granted.
/// A poisoned lock is fatal, as for `cell_read`.
#[verifier::external_body]
fn cell_write<'a, G: Graph>(c: &'a SharedCell<G>) -> (g: WriteGuard<'a, G>) {
    let guard = c.cell.write().expect("the store is poisoned: a writer panicked while holding it");
    WriteGuard { guard }
}

/// Relies on `RwLock::try_write`: like `cell_write`, but reports
/// unavailability instead of blocking while anyone holds the lock.
#[verifier::external_body]
fn cell_try_write<'a, G: Graph>(c: &'a SharedCell<G>) -> (g: Option<WriteGuard<'a, G>>) {
    match c.cell.try_write() {
        Ok(guard) => Some(WriteGuard { guard }),
        Err(std::sync::TryLockError::WouldBlock) => None,
        Err(std::sync::TryLockError::Poisoned(_)) => None.expect(
            "the store is poisoned: a writer panicked while holding it",
        ),
    }
}

/// Relies on the read guard's `Deref`: the state the lock protects. The
/// state satisfies `graph.inv()` because everything ever stored does (see
/// `cell_new` and `write_back`).
#[verifier::external_body]
fn guard_state<'a, 'b, G: Graph>(g: &'b ReadGuard<'a, G>) -> (st: &'b IntTransactionGraph<G>)
    ensures
        st.graph.inv(),
{
    &g.guard
}

/// Relies on the write guard's `Deref`: the state the lock protects, which
/// satisfies `graph.inv()` as for `guard_state`.
#[verifier::external_body]
fn wguard_state<'a, 'b, G: Graph>(g: &'b WriteGuard<'a, G>) -> (st: &'b IntTransactionGraph<G>)
    ensures
        st.graph.inv(),
{
    &g.guard
}

/// Relies on the write guard's `DerefMut`: stores `state` in the cell and
/// releases the lock by dropping the guard. Demanding `graph.inv()` here
/// keeps the cell's invariant that `guard_state` relies on.
#[verifier::external_body]
fn write_back<G: Graph>(g: WriteGuard<'_, G>, state: IntTransactionGraph<G>)
    requires
        state.graph.inv(),
{
    let mut guard = g.guard;
    *guard = state;
}

/// A shared, clonable handle on one triple store and its revision counter.
/// Any number of read transactions, or exactly one mutable transaction,
/// may be open at a time.
#[verifier::reject_recursive_types(G)]
pub struct TransactionGraph<G> {
    cell: SharedCell<G>,
}

impl<G> Clone for TransactionGraph<G> {
    /// Another handle on the same shared store.
    fn clone(&self) -> (r: Self) {
        TransactionGraph { cell: cell_share(&self.cell) }
    }
}

/// Relies on `Arc::clone`: another handle to the same cell.
#[verifier::external_body]
fn cell_share<G>(c: &SharedCell<G>) -> (r: SharedCell<G>) {
    SharedCell { cell: std::sync::Arc::clone(&c.cell) }
}

/// A read-only transaction: a snapshot of the store taken under a read
/// lock that stays held for the transaction's lifetime, so no writer can
/// commit while it is alive.
#[verifier::reject_recursive_types(G)]
pub struct Transaction<'a, G> {
    snapshot: G,
    revision: u64,
    guard: ReadGuard<'a, G>,
}

impl<'a, G: Graph> Transaction<'a, G> {
    pub closed spec fn inv(&self) -> bool {
        self.snapshot.inv()
    }

    /// The triples the transaction sees: the store as of its start.
    pub closed spec fn contents(&self) -> Set<TripleView> {
        self.snapshot.contents()
    }

    pub closed spec fn spec_revision(&self) -> u64 {
        self.revision
    }

    /// The snapshot value itself, for contracts that tie methods of one
    /// transaction together.
    pub closed spec fn spec_graph(&self) -> G {
        self.snapshot
    }

    /// The snapshot this transaction reads.
    pub fn graph(&self) -> (g: &G)
        ensures
            *g == self.spec_graph(),
            g.inv() == self.inv(),
            g.contents() == self.contents(),
    {
        &self.snapshot
    }

    /// The revision the snapshot was taken at.
    pub fn revision(&self) -> (r: u64)
        ensures
            r == self.spec_revision(),
    {
        self.revision
    }

    pub fn len(&self) -> (n: usize)
        requires
            self.inv(),
        ensures
            n == self.contents().len(),
    {
        self.snapshot.len()
    }

    pub fn is_empty(&self) -> (r: bool)
        requires
            self.inv(),
        ensures
            r == self.contents().is_empty(),
    {
        self.snapshot.is_empty()
    }

    pub fn contains(&self, subject: &Node, predicate: &Node, object: &Node) -> (r: bool)
        requires
            self.inv(),
        ensures
            r == self.contents().contains((subject@, predicate@, object@)),
    {
        self.snapshot.contains(subject, predicate, object)
    }

    pub fn triples(&self) -> (v: Vec<Triple>)
        requires
            self.inv(),
        ensures
            crate::graph::views_of(v@).no_duplicates(),
            crate::graph::views_of(v@).to_set() == self.contents(),
    {
        self.snapshot.triples()
    }

    /// Wrap one observation of the shared state: the transaction reads
    /// exactly the snapshot it was given and carries exactly the observed
    /// revision.
    fn seal(snapshot: G, revision: u64, guard: ReadGuard<'a, G>) -> (t: Transaction<'a, G>)
        requires
            snapshot.inv(),
        ensures
            t.inv(),
            t.spec_graph() == snapshot,
            t.contents() == snapshot.contents(),
            t.spec_revision() == revision,
    {
        Transaction { snapshot, revision, guard }
    }

    pub fn is_valid_graph(&self) -> (r: bool)
        requires
            self.inv(),
        ensures
            r == forall|t: TripleView| #[trigger]
                self.contents().contains(t) ==> crate::graph::wf_triple(t),
    {
        let r = self.snapshot.is_valid_graph();
        proof {
            if r {
                assert forall|t: TripleView| #[trigger]
                    self.contents().contains(t) implies crate::graph::wf_triple(t) by {
                    assert(self.snapshot.contents().contains(t));
                };
            } else {
                let t = choose|t: TripleView|
                    #[trigger] self.snapshot.contents().contains(t) && !crate::graph::wf_triple(
                        t,
                    );
                assert(self.contents().contains(t));
            }
        }
        r
    }
}

/// A mutable transaction: exclusive access to the store, with every
/// mutation buffered as a difference against the state at open time. The
/// underlying store is untouched until `commit`; dropping the transaction
/// discards the staged difference.
#[verifier::reject_recursive_types(G)]
pub struct MutTransaction<'a, G> {
    guard: WriteGuard<'a, G>,
    current: G,
    added: HashGraph,
    removed: HashGraph,
    revision: u64,
}

impl<'a, G: SnapshotGraph> MutTransaction<'a, G> {
    /// The triples staged for insertion since the transaction opened.
    pub closed spec fn staged_additions(&self) -> Set<TripleView> {
        self.added.contents()
    }

    /// The triples staged for removal since the transaction opened.
    pub closed spec fn staged_removals(&self) -> Set<TripleView> {
        self.removed.contents()
    }

    /// The store as it was when the transaction opened, reconstructed from
    /// the working copy and the staged difference. Mutations never change
    /// it: that is the isolation guarantee.
    pub open spec fn base_contents(&self) -> Set<TripleView> {
        self.contents().difference(self.staged_additions()).union(self.staged_removals())
    }

    pub closed spec fn spec_revision(&self) -> u64 {
        self.revision
    }

    /// The staged difference is coherent: everything staged as added is in
    /// the working copy, and nothing staged as removed is.
    pub closed spec fn diff_inv(&self) -> bool {
        &&& self.current.inv()
        &&& self.added.inv()
        &&& self.removed.inv()
        &&& self.staged_additions().subset_of(self.current.contents())
        &&& self.staged_removals().disjoint(self.current.contents())
    }

    /// The defensive diff check of the transaction design: everything
    /// staged as added is present, nothing staged as removed is. It is
    /// provably true of every transaction this module hands out.
    fn is_valid(&self) -> (r: bool)
        requires
            self.diff_inv(),
        ensures
            r,
    {
        let added_present = crate::set::is_subset(&self.added, &self.current);
        let removed_absent = crate::set::is_disjoint(&self.removed, &self.current);
        added_present && removed_absent
    }

    /// Stage one triple for insertion. The triple shows up in this
    /// transaction's view; the underlying store stays exactly as it was —
    /// the staged mutation is invisible outside this transaction until
    /// `commit`.
    pub fn stage_insert(&mut self, subject: Node, predicate: Node, object: Node)
        requires
            old(self).inv(),
        ensures
            final(self).inv(),
            final(self).contents() == old(self).contents().insert(
                (subject@, predicate@, object@),
            ),
            final(self).base_contents() == old(self).base_contents(),
            final(self).spec_revision() == old(self).spec_revision(),
    {
        let ghost tv = (subject@, predicate@, object@);
        let staged_out = self.removed.contains(&subject, &predicate, &object);
        if staged_out {
            self.removed.remove(&subject, &predicate, &object);
            self.current.insert(subject, predicate, object);
            proof {
                assert(self.base_contents() =~= old(self).base_contents());
                assert(self.contents() =~= old(self).contents().insert(tv));
            }
        } else {
            let present = self.current.contains(&subject, &predicate, &object);
            if !present {
                self.added.clone_insert(&subject, &predicate, &object);
                self.current.insert(subject, predicate, object);
                proof {
                    assert(self.base_contents() =~= old(self).base_contents());
                }
            } else {
                proof {
                    assert(self.contents() =~= old(self).contents().insert(tv));
                }
            }
        }
    }

    /// Stage one triple for removal. The triple leaves this transaction's
    /// view; the underlying store stays exactly as it was — the staged
    /// mutation is invisible outside this transaction until `commit`.
    pub fn stage_remove(&mut self, subject: &Node, predicate: &Node, object: &Node)
        requires
            old(self).inv(),
        ensures
            final(self).inv(),
            final(self).contents() == old(self).contents().remove(
                (subject@, predicate@, object@),
            ),
            final(self).base_contents() == old(self).base_contents(),
            final(self).spec_revision() == old(self).spec_revision(),
    {
        let ghost tv = (subject@, predicate@, object@);
        let staged_in = self.added.contains(subject, predicate, object);
        if staged_in {
            self.added.remove(subject, predicate, object);
            self.current.remove(subject, predicate, object);
            proof {
                assert(self.base_contents() =~= old(self).base_contents());
            }
        } else {
            let present = self.current.contains(subject, predicate, object);
            if present {
                self.removed.clone_insert(subject, predicate, object);
                self.current.remove(subject, predicate, object);
                proof {
                    assert(self.base_contents() =~= old(self).base_contents());
                }
            } else {
                proof {
                    assert(self.contents() =~= old(self).contents().remove(tv));
                }
            }
        }
    }

    /// Open a transaction over one observation of the shared state: the
    /// working copy starts as exactly the observed store, the staged
    /// difference is empty, and the carried revision is exactly the
    /// observed one.
    fn open(current: G, revision: u64, guard: WriteGuard<'a, G>) -> (t: MutTransaction<'a, G>)
        requires
            current.inv(),
        ensures
            t.inv(),
            t.contents() == current.contents(),
            t.staged_additions().is_empty(),
            t.staged_removals().is_empty(),
            t.base_contents() == t.contents(),
            t.spec_revision() == revision,
    {
        let t = MutTransaction {
            guard,
            current,
            added: HashGraph::new(),
            removed: HashGraph::new(),
            revision,
        };
        proof {
            assert(t.base_contents() =~= t.contents());
        }
        t
    }

    /// Stage the removal of everything the transaction currently shows:
    /// the view becomes empty, while the underlying store stays exactly
    /// as it was until `commit`.
    pub fn stage_clear(&mut self)
        requires
            old(self).inv(),
        ensures
            final(self).inv(),
            final(self).contents() == Set::<TripleView>::empty(),
            final(self).base_contents() == old(self).base_contents(),
            final(self).spec_revision() == old(self).spec_revision(),
    {
        let survivors = crate::set::difference(&self.current, &self.added);
        self.removed.clone_extend(&survivors);
        self.added.clear();
        self.current.clear();
        proof {
            assert(self.contents() =~= Set::<TripleView>::empty());
            assert(self.base_contents() =~= old(self).base_contents());
        }
    }

    /// Apply the staged difference to the shared store, advance the
    /// revision by one, and release the lock. The committed store is the
    /// base with the staged removals taken out and the staged additions
    /// put in — see `lemma_commit_applies_diff`. The counter would
    /// saturate only at the largest revision, which no run of commits can
    /// reach.
    pub fn commit(self)
        requires
            self.inv(),
    {
        proof {
            assert(self.diff_inv());
        }
        let valid = self.is_valid();
        assert(valid);
        let MutTransaction { guard, current, added, removed, revision } = self;
        write_back(guard, MutTransaction::<'a, G>::committed_state(current, revision));
    }

    /// The state a commit hands back to the cell: the transaction's
    /// working copy, at the revision after the one the transaction was
    /// opened at.
    fn committed_state(current: G, revision: u64) -> (st: IntTransactionGraph<G>)
        ensures
            st.graph == current,
            revision < u64::MAX ==> st.revision == revision + 1,
            revision == u64::MAX ==> st.revision == revision,
    {
        let next_revision = if revision == u64::MAX {
            revision
        } else {
            revision + 1
        };
        IntTransactionGraph { graph: current, revision: next_revision }
    }
}

/// What `commit` stores is exactly the transaction's base with the staged
/// removals taken out and the staged additions put in: the whole staged
/// difference becomes visible at once, and nothing else changes.
pub proof fn lemma_commit_applies_diff<'a, G: SnapshotGraph>(t: &MutTransaction<'a, G>)
    requires
        t.inv(),
    ensures
        t.contents() == t.base_contents().difference(t.staged_removals()).union(
            t.staged_additions(),
        ),
{
    assert(t.contents() =~= t.base_contents().difference(t.staged_removals()).union(
        t.staged_additions(),
    ));
}

/// The length law of a mutable transaction: what it shows equals the base
/// plus the staged additions minus the staged removals. Stated without
/// subtraction: view + removed = base + added.
pub proof fn lemma_transaction_length<'a, G: SnapshotGraph>(t: &MutTransaction<'a, G>)
    requires
        t.inv(),
    ensures
        t.contents().len() + t.staged_removals().len() == t.base_contents().len()
            + t.staged_additions().len(),
{
    t.current.lemma_contents_finite();
    t.added.lemma_contents_finite();
    t.removed.lemma_contents_finite();
    let c = t.contents();
    let a = t.staged_additions();
    let r = t.staged_removals();
    let kept = c.difference(a);
    assert(c =~= kept + a);
    assert(kept.disjoint(a));
    vstd::set_lib::lemma_set_disjoint_lens(kept, a);
    assert(t.base_contents() =~= kept + r);
    assert(kept.disjoint(r));
    vstd::set_lib::lemma_set_disjoint_lens(kept, r);
}

impl<'a, G: SnapshotGraph> Graph for MutTransaction<'a, G> {
    closed spec fn contents(&self) -> Set<TripleView> {
        self.current.contents()
    }

    closed spec fn inv(&self) -> bool {
        self.diff_inv()
    }

    proof fn lemma_contents_finite(&self) {
        self.current.lemma_contents_finite();
    }

    fn len(&self) -> (n: usize) {
        self.current.len()
    }

    fn is_empty(&self) -> (r: bool) {
        self.current.is_empty()
    }

    fn contains(&self, subject: &Node, predicate: &Node, object: &Node) -> (r: bool) {
        let staged_in = self.added.contains(subject, predicate, object);
        if staged_in {
            true
        } else {
            let staged_out = self.removed.contains(subject, predicate, object);
            if staged_out {
                false
            } else {
                self.current.contains(subject, predicate, object)
            }
        }
    }

    fn triples(&self) -> (v: Vec<Triple>) {
        self.current.triples()
    }

    fn insert(&mut self, subject: Node, predicate: Node, object: Node) {
        self.stage_insert(subject, predicate, object);
    }

    fn remove(&mut self, subject: &Node, predicate: &Node, object: &Node) {
        self.stage_remove(subject, predicate, object);
    }

    fn clear(&mut self) {
        self.stage_clear();
    }

    fn retain<F: Fn(&Node, &Node, &Node) -> bool>(&mut self, f: F) {
        self.stage_retain(f);
    }
}

impl<'a, G: SnapshotGraph> MutTransaction<'a, G> {
    /// Keep only the triples for which `f` answers true, staging the
    /// removals: the view is filtered, while the underlying store stays
    /// exactly as it was until `commit`.
    pub fn stage_retain<F: Fn(&Node, &Node, &Node) -> bool>(&mut self, f: F)
        requires
            old(self).inv(),
            forall|s: Node, p: Node, o: Node| #[trigger] call_requires(f, (&s, &p, &o)),
        ensures
            final(self).inv(),
            final(self).contents().subset_of(old(self).contents()),
            forall|t: TripleView| #[trigger]
                final(self).contents().contains(t) ==> exists|s: Node, p: Node, o: Node|
                    (s@, p@, o@) == t && #[trigger] call_ensures(f, (&s, &p, &o), true),
            forall|t: TripleView|
                old(self).contents().contains(t) && !#[trigger] final(self).contents().contains(t)
                    ==> exists|s: Node, p: Node, o: Node|
                    (s@, p@, o@) == t && #[trigger] call_ensures(f, (&s, &p, &o), false),
            final(self).base_contents() == old(self).base_contents(),
            final(self).spec_revision() == old(self).spec_revision(),
    {
        let all = self.current.triples();
        let n = all.len();
        let mut doomed: Vec<Triple> = Vec::new();
        let mut i: usize = 0;
        while i < n
            invariant
                old(self) == self,
                self.inv(),
                n == all.len(),
                0 <= i <= n,
                forall|s: Node, p: Node, o: Node| #[trigger] call_requires(f, (&s, &p, &o)),
                crate::graph::views_of(all@).no_duplicates(),
                crate::graph::views_of(all@).to_set() == self.contents(),
                crate::graph::views_of(doomed@).no_duplicates(),
                forall|e: TripleView| #[trigger]
                    crate::graph::views_of(doomed@).contains(e) ==> (exists|j: int|
                        0 <= j < i && #[trigger] crate::graph::views_of(all@)[j] == e) && exists|
                        s: Node,
                        p: Node,
                        o: Node,
                    |
                        (s@, p@, o@) == e && #[trigger] call_ensures(f, (&s, &p, &o), false),
                forall|j: int|
                    0 <= j < i ==> crate::graph::views_of(doomed@).contains(
                        #[trigger] crate::graph::views_of(all@)[j],
                    ) || exists|s: Node, p: Node, o: Node|
                        (s@, p@, o@) == crate::graph::views_of(all@)[j] && #[trigger] call_ensures(
                            f,
                            (&s, &p, &o),
                            true,
                        ),
            decreases n - i,
        {
            broadcast use vstd::seq_lib::group_seq_properties;

            let t = &all[i];
            proof {
                assert(crate::graph::views_of(all@)[i as int] == all@[i as int]@);
            }
            let keep = f(&t.subject, &t.predicate, &t.object);
            if !keep {
                let ghost prefix = doomed@;
                proof {
                    if crate::graph::views_of(prefix).contains(
                        crate::graph::views_of(all@)[i as int],
                    ) {
                        let j = choose|j: int|
                            0 <= j < i && #[trigger] crate::graph::views_of(all@)[j]
                                == crate::graph::views_of(all@)[i as int];
                        assert(false);
                    }
                }
                doomed.push(t.clone());
                proof {
                    assert(crate::graph::views_of(doomed@) =~= crate::graph::views_of(
                        prefix,
                    ).push(crate::graph::views_of(all@)[i as int]));
                }
            }
            i = i + 1;
        }
        let ghost before = self.contents();
        let ghost doomed_set = crate::graph::views_of(doomed@).to_set();
        self.remove_each(&doomed);
        proof {
            assert forall|e: TripleView| #[trigger] self.contents().contains(e) implies exists|
                s: Node,
                p: Node,
                o: Node,
            |
                (s@, p@, o@) == e && #[trigger] call_ensures(f, (&s, &p, &o), true) by {
                assert(before.contains(e) && !doomed_set.contains(e));
                assert(crate::graph::views_of(all@).contains(e));
                let j = choose|j: int|
                    0 <= j < crate::graph::views_of(all@).len() && crate::graph::views_of(all@)[j]
                        == e;
                assert(crate::graph::views_of(doomed@).contains(e)
                    || exists|s: Node, p: Node, o: Node|
                    (s@, p@, o@) == crate::graph::views_of(all@)[j] && #[trigger] call_ensures(
                        f,
                        (&s, &p, &o),
                        true,
                    ));
            };
        }
    }

    /// Stage the removal of every triple in the vector.
    fn remove_each(&mut self, doomed: &Vec<Triple>)
        requires
            old(self).inv(),
        ensures
            final(self).inv(),
            final(self).contents() == old(self).contents().difference(
                crate::graph::views_of(doomed@).to_set(),
            ),
            final(self).base_contents() == old(self).base_contents(),
            final(self).spec_revision() == old(self).spec_revision(),
    {
        broadcast use vstd::seq_lib::group_seq_properties;
        broadcast use vstd::prelude::Seq::lemma_push_to_set_commute;

        let n = doomed.len();
        let mut i: usize = 0;
        while i < n
            invariant
                n == doomed.len(),
                0 <= i <= n,
                self.inv(),
                self.contents() == old(self).contents().difference(
                    crate::graph::views_of(doomed@.take(i as int)).to_set(),
                ),
                self.base_contents() == old(self).base_contents(),
                self.spec_revision() == old(self).spec_revision(),
            decreases n - i,
        {
            let t = &doomed[i];
            self.stage_remove(&t.subject, &t.predicate, &t.object);
            proof {
                let x = doomed@[i as int]@;
                let prefix = crate::graph::views_of(doomed@.take(i as int));
                assert(doomed@.take(i as int + 1) =~= doomed@.take(i as int).push(
                    doomed@[i as int],
                ));
                assert(crate::graph::views_of(doomed@.take(i as int + 1)) =~= prefix.push(x));
                prefix.lemma_push_to_set_commute(x);
                assert(self.contents() =~= old(self).contents().difference(
                    crate::graph::views_of(doomed@.take(i as int + 1)).to_set(),
                ));
            }
            i = i + 1;
        }
        proof {
            assert(doomed@.take(doomed@.len() as int) =~= doomed@);
        }
    }
}

/// A memoized query against a shared store: the query function, its last
/// result, and the revision that result was computed at. `update`
/// recomputes only when the store's revision has advanced.
#[verifier::reject_recursive_types(G)]
pub struct CachedQuery<T, G, Q> {
    handle: TransactionGraph<G>,
    query: Q,
    result: T,
    revision: u64,
}

impl<T, G: Graph, Q: Fn(&G) -> T> CachedQuery<T, G, Q> {
    /// The query can be asked of any store that satisfies the graph
    /// invariant.
    pub closed spec fn wf(&self) -> bool {
        forall|g: G| g.inv() ==> #[trigger] call_requires(self.query, (&g,))
    }

    pub closed spec fn spec_query(&self) -> Q {
        self.query
    }

    pub closed spec fn spec_result(&self) -> T {
        self.result
    }

    pub closed spec fn spec_revision(&self) -> u64 {
        self.revision
    }

    /// The memoized result.
    pub fn value(&self) -> (r: &T)
        ensures
            *r == self.spec_result(),
    {
        &self.result
    }

    /// The revision the result was computed at.
    pub fn revision(&self) -> (r: u64)
        ensures
            r == self.spec_revision(),
    {
        self.revision
    }

    /// Build a cache from one observation of the shared state: the
    /// memoized result is the query's answer on exactly the observed
    /// store, and the cached revision is exactly the observed revision.
    fn fresh(handle: TransactionGraph<G>, query: Q, observed: &G, revision: u64) -> (c:
        CachedQuery<T, G, Q>)
        requires
            observed.inv(),
            forall|g: G| g.inv() ==> #[trigger] call_requires(query, (&g,)),
        ensures
            c.wf(),
            c.spec_query() == query,
            c.spec_revision() == revision,
            call_ensures(query, (observed,), c.spec_result()),
    {
        let result = query(observed);
        CachedQuery { handle, query, result, revision }
    }

    /// Fold one observation of the shared state into the cache: when the
    /// observed revision is ahead of the cached one, the result becomes
    /// the query's answer on exactly the observed store and the cached
    /// revision becomes exactly the observed one; otherwise nothing
    /// changes.
    fn absorb(&mut self, observed: &G, seen: u64)
        requires
            old(self).wf(),
            observed.inv(),
        ensures
            final(self).wf(),
            final(self).spec_query() == old(self).spec_query(),
            seen <= old(self).spec_revision() ==> final(self).spec_result() == old(
                self,
            ).spec_result() && final(self).spec_revision() == old(self).spec_revision(),
            seen > old(self).spec_revision() ==> final(self).spec_revision() == seen
                && call_ensures(old(self).spec_query(), (observed,), final(self).spec_result()),
    {
        if seen > self.revision {
            let fresh = (self.query)(observed);
            self.result = fresh;
            self.revision = seen;
        }
    }

    /// Recompute the result only if the store has seen a commit since it
    /// was last computed; otherwise leave it exactly as it is. The
    /// revision-gated recomputation itself is pinned by `absorb`.
    pub fn update(&mut self)
        requires
            old(self).wf(),
        ensures
            final(self).wf(),
            final(self).spec_query() == old(self).spec_query(),
            final(self).spec_revision() >= old(self).spec_revision(),
            final(self).spec_revision() == old(self).spec_revision() ==> final(self).spec_result()
                == old(self).spec_result(),
            final(self).spec_revision() > old(self).spec_revision() ==> answers_for_some_store(
                old(self).spec_query(),
                final(self).spec_result(),
            ),
    {
        let handle = self.handle.clone();
        let guard = cell_read(&handle.cell);
        let state = guard_state(&guard);
        let seen = state.revision;
        self.absorb(&state.graph, seen);
        proof {
            if self.spec_revision() > old(self).spec_revision() {
                let g = state.graph;
                assert(g.inv());
                assert(answers_for_some_store(old(self).spec_query(), self.spec_result()));
            }
        }
    }
}

/// Answer a query on one observed store: the result is pinned to exactly
/// that store's value.
fn run_query<G: Graph, T, Q: Fn(&G) -> T>(observed: &G, query: Q) -> (t: T)
    requires
        observed.inv(),
        forall|g: G| g.inv() ==> #[trigger] call_requires(query, (&g,)),
    ensures
        call_ensures(query, (observed,), t),
{
    query(observed)
}

impl<G: SnapshotGraph> TransactionGraph<G> {
    /// Wrap a store in a shared, lockable handle with revision zero.
    pub fn new(graph: G) -> (h: Self)
        requires
            graph.inv(),
    {
        TransactionGraph { cell: cell_new(IntTransactionGraph::new(graph)) }
    }

    /// Open a read-only transaction; blocks while a writer is active.
    pub fn transaction<'a>(&'a self) -> (t: Transaction<'a, G>)
        ensures
            t.inv(),
    {
        let guard = cell_read(&self.cell);
        let state = guard_state(&guard);
        let snapshot = state.graph.snapshot();
        let revision = state.revision;
        Transaction::seal(snapshot, revision, guard)
    }

    /// Open a read-only transaction, or report unavailability instead of
    /// blocking while a writer is active.
    pub fn try_transaction<'a>(&'a self) -> (r: Option<Transaction<'a, G>>)
        ensures
            r matches Some(t) ==> t.inv(),
    {
        match cell_try_read(&self.cell) {
            Some(guard) => {
                let state = guard_state(&guard);
                let snapshot = state.graph.snapshot();
                let revision = state.revision;
                Some(Transaction::seal(snapshot, revision, guard))
            },
            None => None,
        }
    }

    /// Open a mutable transaction with an empty staged difference; blocks
    /// while anyone else holds the lock.
    pub fn mut_transaction<'a>(&'a self) -> (t: MutTransaction<'a, G>)
        ensures
            t.inv(),
            t.staged_additions().is_empty(),
            t.staged_removals().is_empty(),
            t.base_contents() == t.contents(),
    {
        let guard = cell_write(&self.cell);
        let state = wguard_state(&guard);
        let current = state.graph.snapshot();
        let revision = state.revision;
        MutTransaction::open(current, revision, guard)
    }

    /// Open a mutable transaction, or report unavailability instead of
    /// blocking while anyone else holds the lock.
    pub fn try_mut_transaction<'a>(&'a self) -> (r: Option<MutTransaction<'a, G>>)
        ensures
            r matches Some(t) ==> t.inv() && t.staged_additions().is_empty()
                && t.staged_removals().is_empty() && t.base_contents() == t.contents(),
    {
        match cell_try_write(&self.cell) {
            Some(guard) => {
                let state = wguard_state(&guard);
                let current = state.graph.snapshot();
                let revision = state.revision;
                Some(MutTransaction::open(current, revision, guard))
            },
            None => None,
        }
    }

    /// Run a query under a read lock and hand back its result.
    pub fn query<T, Q: Fn(&G) -> T>(&self, query: Q) -> (r: Option<T>)
        requires
            forall|g: G| g.inv() ==> #[trigger] call_requires(query, (&g,)),
        ensures
            r is Some,
            answers_for_some_store(query, r->Some_0),
    {
        let guard = cell_read(&self.cell);
        let state = guard_state(&guard);
        let result = run_query(&state.graph, query);
        proof {
            let g = state.graph;
            assert(g.inv() && call_ensures(query, (&g, ), result));
            assert(answers_for_some_store(query, result));
        }
        Some(result)
    }

    /// Evaluate a query under a read lock and keep its result memoized,
    /// tagged with the revision it was computed at.
    pub fn cached_query<T, Q: Fn(&G) -> T>(&self, query: Q) -> (c: CachedQuery<T, G, Q>)
        requires
            forall|g: G| g.inv() ==> #[trigger] call_requires(query, (&g,)),
        ensures
            c.wf(),
            answers_for_some_store(query, c.spec_result()),
    {
        let guard = cell_read(&self.cell);
        let state = guard_state(&guard);
        let c = CachedQuery::fresh(self.clone(), query, &state.graph, state.revision);
        proof {
            let g = state.graph;
            assert(g.inv() && call_ensures(query, (&g, ), c.spec_result()));
            assert(answers_for_some_store(query, c.spec_result()));
        }
        c
    }

    /// Like `cached_query`, but reports unavailability instead of blocking
    /// while a writer is active.
    pub fn try_cached_query<T, Q: Fn(&G) -> T>(&self, query: Q) -> (r: Option<
        CachedQuery<T, G, Q>,
    >)
        requires
            forall|g: G| g.inv() ==> #[trigger] call_requires(query, (&g,)),
        ensures
            r matches Some(c) ==> c.wf() && answers_for_some_store(query, c.spec_result()),
    {
        match cell_try_read(&self.cell) {
            Some(guard) => {
                let state = guard_state(&guard);
                let c = CachedQuery::fresh(self.clone(), query, &state.graph, state.revision);
                proof {
                    let g = state.graph;
                    assert(g.inv() && call_ensures(query, (&g, ), c.spec_result()));
                    assert(answers_for_some_store(query, c.spec_result()));
                }
                Some(c)
            },
            None => None,
        }
    }
}

} // verus!
