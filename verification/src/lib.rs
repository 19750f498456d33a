//! Peer-to-peer clipboard synchronisation: the wire protocol's checks, the
//! ordering and de-duplication engine, the per-connection decisions of a peer
//! and the clipboard watcher's decisions, each with its contract.

pub mod clipboard;
pub mod decimal;
pub mod digest;
pub mod error;
pub mod png;
pub mod protocol;
pub mod seen;
pub mod session;
pub mod sync_engine;
