//! An append-only, segmented log of opaque messages.
//!
//! The library holds the decisions of the log engine: the frame format, the
//! segment naming scheme, the segment roster, the write path (offset
//! assignment, roll and sync policies, crash recovery, retention) and the read
//! cursor. Moving bytes to and from files is left to the embedder, which hands
//! the library plain values and performs the actions it returns.
pub mod coding;
pub mod frame;
pub mod naming;
pub mod options;
pub mod read_store;
pub mod roster;
pub mod write_store;
