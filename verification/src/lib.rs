//! Interactive zero-knowledge proofs for graph isomorphism and graph
//! non-isomorphism, together with the directed-graph model and the brute-force
//! isomorphism search they are built on.
//!
//! - [`graph`] holds the graphs, [`permutation`] the relabelings of their
//!   vertices, [`isomorphism`] what it means for two graphs to be isomorphic,
//!   and [`search`] the search for an isomorphism.
//! - [`protocol`] holds the two roles of an interactive proof and the engine
//!   that runs one; [`gi`] and [`gni`] hold the roles of the two proofs, honest
//!   and guessing.
//! - [`random`] is where chance comes from, and [`listing`] writes a graph out
//!   for a reader.
//!
//! Every function states what it returns, and the proofs of the soundness and
//! completeness of the two protocols rest on those statements alone. What is
//! taken on trust is named where it stands: the shuffle and the coin of
//! `rand`, and the enumeration of the relabelings by `itertools`.

pub mod gi;
pub mod gni;
pub mod graph;
pub mod isomorphism;
pub mod listing;
pub mod permutation;
pub mod protocol;
pub mod random;
pub mod search;

pub use protocol::{run_interactive_proof, ProtocolError, Prover, Verifier};
