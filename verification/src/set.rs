use vstd::prelude::*;

verus! {

use crate::graph::Graph;
use crate::graph::Triple;
use crate::graph::TripleView;
use crate::graph::views_of;

/// Keep the triples of `source` whose presence in `other` equals
/// `keep_contained`: the common filter behind difference and intersection.
#[verifier::loop_isolation(false)]
fn sieve<H: Graph>(source: Vec<Triple>, other: &H, keep_contained: bool) -> (out: Vec<Triple>)
    requires
        other.inv(),
        views_of(source@).no_duplicates(),
    ensures
        views_of(out@).no_duplicates(),
        views_of(out@).to_set() == views_of(source@).to_set().filter(
            |t: TripleView| other.contents().contains(t) == keep_contained,
        ),
{
    broadcast use vstd::seq_lib::group_seq_properties;

    let n = source.len();
    let mut out: Vec<Triple> = Vec::new();
    let mut i: usize = 0;
    while i < n
        invariant
            0 <= i <= n,
            views_of(out@).no_duplicates(),
            forall|e: TripleView| #[trigger]
                views_of(out@).contains(e) ==> (other.contents().contains(e) == keep_contained)
                    && exists|j: int| 0 <= j < i && #[trigger] views_of(source@)[j] == e,
            forall|j: int|
                0 <= j < i && (other.contents().contains(#[trigger] views_of(source@)[j])
                    == keep_contained) ==> views_of(out@).contains(views_of(source@)[j]),
        decreases n - i,
    {
        let t = &source[i];
        proof {
            assert(views_of(source@)[i as int] == source@[i as int]@);
        }
        let present = other.contains(&t.subject, &t.predicate, &t.object);
        if present == keep_contained {
            let ghost prefix = out@;
            proof {
                if views_of(prefix).contains(views_of(source@)[i as int]) {
                    let j = choose|j: int|
                        0 <= j < i && #[trigger] views_of(source@)[j] == views_of(source@)[
                            i as int
                        ];
                    assert(false);
                }
            }
            out.push(t.clone());
            proof {
                assert(views_of(out@) =~= views_of(prefix).push(views_of(source@)[i as int]));
            }
        }
        i = i + 1;
    }
    proof {
        let flt = views_of(source@).to_set().filter(
            |t: TripleView| other.contents().contains(t) == keep_contained,
        );
        assert forall|e: TripleView| views_of(out@).to_set().contains(e) implies #[trigger] flt.contains(
            e,
        ) by {
            let j = choose|j: int| 0 <= j < n && #[trigger] views_of(source@)[j] == e;
            assert(views_of(source@).contains(e));
        };
        assert forall|e: TripleView| #[trigger] flt.contains(e) implies views_of(
            out@,
        ).to_set().contains(e) by {
            let j = choose|j: int|
                0 <= j < views_of(source@).len() && views_of(source@)[j] == e;
            assert(views_of(out@).contains(views_of(source@)[j]));
        };
        assert(views_of(out@).to_set() =~= flt);
    }
    out
}

/// Gluing two duplicate-free triple vectors with no common value gives a
/// duplicate-free vector denoting the union of what they denote.
proof fn lemma_concat_distinct(a: Seq<Triple>, b: Seq<Triple>)
    requires
        views_of(a).no_duplicates(),
        views_of(b).no_duplicates(),
        views_of(a).to_set().disjoint(views_of(b).to_set()),
    ensures
        views_of(a + b).no_duplicates(),
        views_of(a + b).to_set() == views_of(a).to_set().union(views_of(b).to_set()),
{
    broadcast use vstd::seq_lib::group_seq_properties;

    assert(views_of(a + b) =~= views_of(a) + views_of(b));
    let c = views_of(a) + views_of(b);
    let la = views_of(a).len();
    assert forall|p: int, q: int| 0 <= p < c.len() && 0 <= q < c.len() && p != q implies c[p]
        != c[q] by {
        if p < la {
            assert(c[p] == views_of(a)[p]);
        } else {
            assert(c[p] == views_of(b)[p - la]);
        }
        if q < la {
            assert(c[q] == views_of(a)[q]);
        } else {
            assert(c[q] == views_of(b)[q - la]);
        }
        if p < la && q >= la {
            assert(views_of(a).to_set().contains(c[p]));
            assert(views_of(b).to_set().contains(c[q]));
        } else if q < la && p >= la {
            assert(views_of(a).to_set().contains(c[q]));
            assert(views_of(b).to_set().contains(c[p]));
        }
    };
    vstd::seq_lib::seq_to_set_distributes_over_add(views_of(a), views_of(b));
}

/// The triples of `lhs` that `rhs` does not contain, each exactly once.
pub fn difference<G: Graph, H: Graph>(lhs: &G, rhs: &H) -> (v: Vec<Triple>)
    requires
        lhs.inv(),
        rhs.inv(),
    ensures
        views_of(v@).no_duplicates(),
        views_of(v@).to_set() == lhs.contents().difference(rhs.contents()),
{
    let out = sieve(lhs.triples(), rhs, false);
    proof {
        assert(views_of(out@).to_set() =~= lhs.contents().difference(rhs.contents()));
    }
    out
}

/// The triples of `lhs` that `rhs` also contains, each exactly once.
pub fn intersection<G: Graph, H: Graph>(lhs: &G, rhs: &H) -> (v: Vec<Triple>)
    requires
        lhs.inv(),
        rhs.inv(),
    ensures
        views_of(v@).no_duplicates(),
        views_of(v@).to_set() == lhs.contents().intersect(rhs.contents()),
{
    let out = sieve(lhs.triples(), rhs, true);
    proof {
        assert(views_of(out@).to_set() =~= lhs.contents().intersect(rhs.contents()));
    }
    out
}

/// The triples held by exactly one of the two graphs, each exactly once.
pub fn symmetric_difference<G: Graph, H: Graph>(lhs: &G, rhs: &H) -> (v: Vec<Triple>)
    requires
        lhs.inv(),
        rhs.inv(),
    ensures
        views_of(v@).no_duplicates(),
        views_of(v@).to_set() == lhs.contents().difference(rhs.contents()).union(
            rhs.contents().difference(lhs.contents()),
        ),
{
    let mut left = difference(lhs, rhs);
    let mut right = difference(rhs, lhs);
    let ghost a = left@;
    let ghost b = right@;
    proof {
        lemma_concat_distinct(a, b);
    }
    left.append(&mut right);
    proof {
        assert(left@ =~= a + b);
    }
    left
}

/// Every triple of `lhs`, then every triple of `rhs` not in `lhs`: together
/// the union, each triple exactly once.
pub fn union<G: Graph, H: Graph>(lhs: &G, rhs: &H) -> (v: Vec<Triple>)
    requires
        lhs.inv(),
        rhs.inv(),
    ensures
        views_of(v@).no_duplicates(),
        views_of(v@).to_set() == lhs.contents().union(rhs.contents()),
        v@.len() == lhs.contents().len() + rhs.contents().difference(lhs.contents()).len(),
{
    let mut left = lhs.triples();
    let mut right = difference(rhs, lhs);
    let ghost a = left@;
    let ghost b = right@;
    proof {
        lemma_concat_distinct(a, b);
        views_of(a).unique_seq_to_set();
        views_of(b).unique_seq_to_set();
        assert(views_of(a + b).to_set() =~= lhs.contents().union(rhs.contents()));
        views_of(a + b).unique_seq_to_set();
    }
    left.append(&mut right);
    proof {
        assert(left@ =~= a + b);
    }
    left
}

/// Whether `rhs` contains every triple of `lhs`.
#[verifier::loop_isolation(false)]
pub fn is_subset<G: Graph, H: Graph>(lhs: &G, rhs: &H) -> (r: bool)
    requires
        lhs.inv(),
        rhs.inv(),
    ensures
        r == lhs.contents().subset_of(rhs.contents()),
{
    let all = lhs.triples();
    let n = all.len();
    let mut i: usize = 0;
    while i < n
        invariant
            0 <= i <= n,
            n == all.len(),
            forall|j: int|
                0 <= j < i ==> rhs.contents().contains(#[trigger] views_of(all@)[j]),
        decreases n - i,
    {
        let t = &all[i];
        proof {
            assert(views_of(all@)[i as int] == all@[i as int]@);
        }
        if !rhs.contains(&t.subject, &t.predicate, &t.object) {
            proof {
                assert(views_of(all@).contains(views_of(all@)[i as int]));
                assert(lhs.contents().contains(views_of(all@)[i as int]));
            }
            return false;
        }
        i = i + 1;
    }
    proof {
        assert forall|t: TripleView| #[trigger] lhs.contents().contains(t) implies rhs.contents().contains(
            t,
        ) by {
            assert(views_of(all@).contains(t));
            let j = choose|j: int| 0 <= j < views_of(all@).len() && views_of(all@)[j] == t;
        };
    }
    true
}

/// Whether `lhs` contains every triple of `rhs`.
pub fn is_superset<G: Graph, H: Graph>(lhs: &G, rhs: &H) -> (r: bool)
    requires
        lhs.inv(),
        rhs.inv(),
    ensures
        r == rhs.contents().subset_of(lhs.contents()),
{
    is_subset(rhs, lhs)
}

/// Whether the two graphs have no triple in common.
#[verifier::loop_isolation(false)]
pub fn is_disjoint<G: Graph, H: Graph>(lhs: &G, rhs: &H) -> (r: bool)
    requires
        lhs.inv(),
        rhs.inv(),
    ensures
        r == lhs.contents().disjoint(rhs.contents()),
{
    let all = lhs.triples();
    let n = all.len();
    let mut i: usize = 0;
    while i < n
        invariant
            0 <= i <= n,
            n == all.len(),
            forall|j: int|
                0 <= j < i ==> !rhs.contents().contains(#[trigger] views_of(all@)[j]),
        decreases n - i,
    {
        let t = &all[i];
        proof {
            assert(views_of(all@)[i as int] == all@[i as int]@);
        }
        if rhs.contains(&t.subject, &t.predicate, &t.object) {
            proof {
                assert(views_of(all@).contains(views_of(all@)[i as int]));
                assert(lhs.contents().contains(views_of(all@)[i as int]));
            }
            return false;
        }
        i = i + 1;
    }
    proof {
        assert forall|t: TripleView| lhs.contents().contains(t) implies !#[trigger] rhs.contents().contains(
            t,
        ) by {
            assert(views_of(all@).contains(t));
            let j = choose|j: int| 0 <= j < views_of(all@).len() && views_of(all@)[j] == t;
        };
    }
    true
}

/// A graph is a subset and a superset of itself, and disjoint from itself
/// exactly when it is empty.
pub proof fn lemma_self_relations<G: Graph>(g: &G)
    requires
        g.inv(),
    ensures
        g.contents().subset_of(g.contents()),
        g.contents().disjoint(g.contents()) <==> g.contents().is_empty(),
{
    if g.contents().disjoint(g.contents()) {
        assert(g.contents() =~= Set::<TripleView>::empty());
    }
}

/// The union of two graphs holds as many triples as the first plus those of
/// the second that the first lacks, and it contains every triple of either.
pub proof fn lemma_union_length<G: Graph, H: Graph>(a: &G, b: &H)
    requires
        a.inv(),
        b.inv(),
    ensures
        a.contents().union(b.contents()).len() == a.contents().len()
            + b.contents().difference(a.contents()).len(),
        forall|t: TripleView| #[trigger]
            a.contents().contains(t) ==> a.contents().union(b.contents()).contains(t),
        forall|t: TripleView| #[trigger]
            b.contents().contains(t) ==> a.contents().union(b.contents()).contains(t),
{
    a.lemma_contents_finite();
    b.lemma_contents_finite();
    let ca = a.contents();
    let cb = b.contents();
    let extra = cb.difference(ca);
    assert(ca.union(cb) =~= ca + extra);
    assert(ca.disjoint(extra));
    vstd::set_lib::lemma_set_disjoint_lens(ca, extra);
}

/// The symmetric difference of two graphs is empty exactly when they hold
/// the same triples.
pub proof fn lemma_symmetric_difference_empty<G: Graph, H: Graph>(a: &G, b: &H)
    requires
        a.inv(),
        b.inv(),
    ensures
        a.contents().difference(b.contents()).union(
            b.contents().difference(a.contents()),
        ).is_empty() <==> a.contents() == b.contents(),
{
    let ca = a.contents();
    let cb = b.contents();
    if ca.difference(cb).union(cb.difference(ca)).is_empty() {
        assert forall|t: TripleView| #[trigger] ca.contains(t) == cb.contains(t) by {
            if ca.contains(t) && !cb.contains(t) {
                assert(ca.difference(cb).union(cb.difference(ca)).contains(t));
            }
            if cb.contains(t) && !ca.contains(t) {
                assert(ca.difference(cb).union(cb.difference(ca)).contains(t));
            }
        };
        assert(ca =~= cb);
    }
    if ca == cb {
        assert(ca.difference(cb).union(cb.difference(ca)) =~= Set::<TripleView>::empty());
    }
}

} // verus!
