use vstd::prelude::*;

verus! {


/// The identity of a blank node.
///
/// A blank node has no text of its own: it is distinguished only by the
/// allocation that backs it. Cloning shares that allocation, so a clone is
/// equal to the original, while two separately created blank nodes are not.
#[verifier::external_body]
#[derive(Debug, Hash)]
pub struct BlankId {
    referent: std::sync::Arc<()>,
}

/// The identity of the allocation behind a blank node. Two `BlankId` values
/// carry the same token exactly when they share one allocation.
pub uninterp spec fn blank_token(b: BlankId) -> nat;

/// Whether the text is a syntactically valid absolute IRI, as decided by
/// the external validator (RFC 3987).
pub uninterp spec fn iri_ok(s: Seq<char>) -> bool;

/// Whether the text holds a colon. An absolute IRI always starts with a
/// scheme terminated by `:`, so text without a colon is never a valid IRI.
pub open spec fn seq_has_colon(s: Seq<char>) -> bool {
    exists|i: int| 0 <= i < s.len() && s[i] == ':'
}

impl BlankId {
    /// Relies on `Arc::new`: a fresh allocation, shared by no other handle.
    #[verifier::external_body]
    fn mint() -> BlankId {
        BlankId { referent: std::sync::Arc::new(()) }
    }

    /// Relies on `Arc::ptr_eq`: true exactly when both handles point to the
    /// same allocation, that is, when they carry the same identity token.
    #[verifier::external_body]
    fn same(&self, other: &BlankId) -> (r: bool)
        ensures
            r == (blank_token(*self) == blank_token(*other)),
    {
        std::sync::Arc::ptr_eq(&self.referent, &other.referent)
    }
}

impl Clone for BlankId {
    /// Relies on `Arc::clone`: the clone shares the allocation of the
    /// original, so it keeps the identity token.
    #[verifier::external_body]
    fn clone(&self) -> (r: Self)
        ensures
            blank_token(r) == blank_token(*self),
    {
        BlankId { referent: std::sync::Arc::clone(&self.referent) }
    }
}

/// The mathematical value of a [`Node`]: either a blank node, known only by
/// the identity of its allocation, or a piece of text.
pub enum NodeView {
    Blank { id: nat },
    Text { text: Seq<char> },
}

impl NodeView {
    /// The text of the node; a blank node has none.
    pub open spec fn text(self) -> Seq<char> {
        match self {
            NodeView::Blank { .. } => Seq::empty(),
            NodeView::Text { text } => text,
        }
    }

    pub open spec fn is_blank(self) -> bool {
        self is Blank
    }

    /// A node is an IRI when it carries text that the validator accepts.
    pub open spec fn is_iri(self) -> bool {
        match self {
            NodeView::Blank { .. } => false,
            NodeView::Text { text } => iri_ok(text),
        }
    }

    /// A node is a literal when it carries text that is not a valid IRI.
    /// A blank node is neither an IRI nor a literal.
    pub open spec fn is_literal(self) -> bool {
        match self {
            NodeView::Blank { .. } => false,
            NodeView::Text { text } => !iri_ok(text),
        }
    }
}

/// A node of a generalized RDF graph: an IRI, a literal, or a blank node.
///
/// A node made from text compares equal to every node made from equal text;
/// a blank node compares equal only to its own clones.
#[derive(Debug, Hash)]
pub enum Node {
    Blank(BlankId),
    Text(String),
}

impl View for Node {
    type V = NodeView;

    closed spec fn view(&self) -> NodeView {
        match self {
            Node::Blank(b) => NodeView::Blank { id: blank_token(*b) },
            Node::Text(s) => NodeView::Text { text: s@ },
        }
    }
}

/// Relies on `iri_string::validate::iri`: whether the whole string is a
/// syntactically valid absolute IRI per RFC 3987. The grammar demands a
/// scheme terminated by a colon, so a string without a colon is rejected.
#[verifier::external_body]
fn iri_check(s: &str) -> (r: bool)
    ensures
        r == iri_ok(s@),
        r ==> seq_has_colon(s@),
{
    iri_string::validate::iri::<iri_string::spec::IriSpec>(s).is_ok()
}

impl Node {
    /// Build a node from text. Whether it is an IRI or a literal is decided
    /// by the external validator when asked, not stored.
    pub fn from(referent: &str) -> (r: Self)
        ensures
            r@ == (NodeView::Text { text: referent@ }),
    {
        Node::Text(referent.to_owned())
    }

    /// Create a fresh blank node, equal to no node made before it.
    pub fn blank() -> (r: Self)
        ensures
            r@ is Blank,
    {
        Node::Blank(BlankId::mint())
    }

    pub fn is_blank(&self) -> (r: bool)
        ensures
            r == self@.is_blank(),
    {
        match self {
            Node::Blank(_) => true,
            Node::Text(_) => false,
        }
    }

    pub fn is_iri(&self) -> (r: bool)
        ensures
            r == self@.is_iri(),
            !seq_has_colon(self@.text()) ==> !r,
    {
        match self {
            Node::Blank(_) => false,
            Node::Text(s) => iri_check(s.as_str()),
        }
    }

    pub fn is_literal(&self) -> (r: bool)
        ensures
            r == self@.is_literal(),
            self@ is Text && !seq_has_colon(self@.text()) ==> r,
    {
        match self {
            Node::Blank(_) => false,
            Node::Text(s) => !iri_check(s.as_str()),
        }
    }

    /// Whether the two nodes denote the same value: equal text for text
    /// nodes, one shared allocation for blank nodes.
    pub fn node_eq(&self, other: &Node) -> (r: bool)
        ensures
            r == (self@ == other@),
    {
        match (self, other) {
            (Node::Blank(a), Node::Blank(b)) => {
                let r = a.same(b);
                proof {
                    assert(self@ == (NodeView::Blank { id: blank_token(*a) }));
                    assert(other@ == (NodeView::Blank { id: blank_token(*b) }));
                    assert(r == (self@ == other@));
                }
                r
            },
            (Node::Text(a), Node::Text(b)) => {
                let r = *a == *b;
                proof {
                    assert(self@ == (NodeView::Text { text: a@ }));
                    assert(other@ == (NodeView::Text { text: b@ }));
                    assert(r == (self@ == other@));
                }
                r
            },
            _ => {
                proof {
                    assert(self@ is Blank != other@ is Blank);
                    assert(self@ != other@);
                }
                false
            },
        }
    }

    /// The text of the node; empty for a blank node.
    pub fn as_str(&self) -> (r: &str)
        ensures
            r@ == self@.text(),
    {
        proof {
            reveal_strlit("");
        }
        match self {
            Node::Blank(_) => "",
            Node::Text(s) => s.as_str(),
        }
    }

    /// Borrow the internal text of the node; empty for a blank node.
    pub fn internal(&self) -> (r: &str)
        ensures
            r@ == self@.text(),
    {
        self.as_str()
    }
}

impl Clone for Node {
    fn clone(&self) -> (r: Self)
        ensures
            r@ == self@,
    {
        match self {
            Node::Blank(b) => Node::Blank(b.clone()),
            Node::Text(s) => Node::Text(s.clone()),
        }
    }
}

impl PartialEq for Node {
    fn eq(&self, other: &Node) -> (r: bool)
        ensures
            r == (self@ == other@),
    {
        self.node_eq(other)
    }
}

impl Eq for Node {}

impl vstd::std_specs::cmp::PartialEqSpecImpl for Node {
    open spec fn obeys_eq_spec() -> bool {
        true
    }

    open spec fn eq_spec(&self, other: &Node) -> bool {
        self@ == other@
    }
}

} // verus!
