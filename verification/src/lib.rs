//! An in-memory store for generalized RDF triples, with verified set
//! algebra and a transactional access layer.
//!
//! A [`Node`] is an IRI, a literal, or a blank node; a [`Triple`] is one
//! (subject, predicate, object) fact. The [`Graph`] trait is the
//! capability contract every store satisfies: a finite set of triples with
//! exact, proved specifications for length, containment, iteration,
//! insertion, removal and selective retention. [`HashGraph`] is the
//! concrete store, the [`set`] module holds the set algebra over any two
//! stores, and the [`transaction`] module wraps a store in a shared handle
//! with single-writer/many-reader locking, difference-buffering mutable
//! transactions, and revision-gated cached queries. The [`turtle`] module
//! reads IRI references in Turtle's lexical form, and [`Validator`] drives
//! any `Graph` implementation through the whole contract with every check
//! proved rather than merely asserted.
pub mod graph;
pub mod hash_graph;
pub mod node;
pub mod set;
pub mod transaction;
pub mod turtle;
pub mod validator;

pub use graph::Graph;
pub use graph::SnapshotGraph;
pub use graph::Triple;
pub use graph::TripleView;
pub use hash_graph::HashGraph;
pub use node::Node;
pub use node::NodeView;
pub use validator::Validator;
