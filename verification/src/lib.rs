//! Core of a threshold key-management service: a cluster of nodes that jointly
//! generates, stores and uses elliptic-curve secrets, so that no single node
//! ever holds a private key.
//!
//! A server key is a scalar that is shared among the nodes by Shamir's scheme:
//! any `threshold + 1` of them can use it, and fewer learn nothing. Under a
//! server key a document key can be stored, blinded, and restored for those who
//! may have it; with a server key a message can be signed. The servers set can
//! be changed, and the shares with it, on the administrator's authority.
//!
//! * [`types`], [`error`], [`requester`], [`node_key`]: the values that go
//!   around, the failures, who asks, and a node's own key.
//! * [`curve`]: the arithmetic of the curve, as `parity_crypto` does it. This
//!   is the one module that is trusted and not proved.
//! * [`math`], [`sharing`], [`document_key`], [`signing`], [`ecdsa`],
//!   [`resharing`]: the formulas of the protocols, over that arithmetic.
//! * [`quorum`]: the rule by which a round of answers succeeds or fails.
//! * [`generation`], [`servers_set_change`], [`sessions`]: the sessions, as
//!   state machines that are driven by the arrival of answers and by timeouts,
//!   and the arena that keeps them apart.
//! * [`share_store`], [`servers_set`]: what a node keeps, and who the nodes are.
//! * [`model`], [`traits`], [`cluster`]: the cluster as the contracts see it,
//!   the interfaces of a key server, and a cluster in one process that
//!   implements them.
//! * [`laws`]: what the contracts add up to.

pub mod cluster;
pub mod curve;
pub mod document_key;
pub mod ecdsa;
pub mod error;
pub mod generation;
pub mod laws;
pub mod math;
pub mod model;
pub mod node_key;
pub mod quorum;
pub mod requester;
pub mod resharing;
pub mod servers_set;
pub mod servers_set_change;
pub mod sessions;
pub mod share_store;
pub mod sharing;
pub mod signing;
pub mod traits;
pub mod types;
