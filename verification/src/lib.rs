//! `IndraDB` - a graph datastore.
//!
//! The datastore holds vertices with type tags, directed typed edges with
//! weights and the time of their last write, and metadata kept under a scope
//! and a name. It lives in memory, and keeps its edges in two ordered
//! indexes that answer range queries from either end of an edge.
//!
//! - `models`: the values of the graph, and how they are checked.
//! - `vertices`, `index`, `metadata`: the ordered vectors that the datastore
//!   is made of.
//! - `memory`: the datastore itself, and `datastore` the way to open one.
//! - `transaction`: the operations as a caller bound to an account sees
//!   them.
//! - `batch`: lists of actions run against a transaction.
//! - `transport`: what a server answers to a request.
//! - `laws`: what holds across operations.
//! - `util`: identifiers, instants and secrets.

pub mod batch;
pub mod datastore;
pub mod errors;
pub mod index;
pub mod laws;
pub mod memory;
pub mod metadata;
pub mod models;
pub mod seqs;
pub mod transaction;
pub mod transport;
pub mod util;
pub mod vertices;

pub use crate::errors::{Error, ValidationError};
pub use crate::memory::MemoryDatastore;
pub use crate::models::{Edge, EdgeKey, Type, Vertex, Weight};
pub use crate::transaction::MemoryTransaction;
