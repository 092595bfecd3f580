//! Convergence core for collaborative text editing: a replicated growable
//! array, an operational transform over positional edits, and the pure
//! decision logic of the relay protocol that carries edits between peers.

pub mod client;
pub mod crdt;
pub mod data;
pub mod errors;
pub mod ident;
pub mod ot;
pub mod sync;
pub mod text;
pub mod utils;
pub mod wire;

pub use crate::crdt::CRDT;
pub use crate::ot::OperationalTransform;
