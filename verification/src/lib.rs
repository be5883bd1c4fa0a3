//! A small task-tracking library: projects containing tasks, each task with a
//! lifecycle state, a dependency set, and an append-only audit log. The whole
//! document is kept well-formed by every operation and persists as a single
//! JSON file whose reader provably inverts its writer.

pub mod model;
pub mod ops;
pub mod jsontext;
pub mod codec;
pub mod dispatch;
