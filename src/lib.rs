//! Block propagation and chain synchronisation for a small peer-to-peer ledger.
//!
//! The library holds the data model (blocks, messages), the node's chain, the
//! binary wire format of messages, and the decisions taken while broadcasting a
//! block and while answering inbound messages. Sockets, threads and locks are
//! left to the caller.

pub mod block;
pub mod message;
pub mod chain;
pub mod text;
pub mod codec;
pub mod node;
