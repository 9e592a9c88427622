//! Live frame relay core: a latest-frame store with per-source fan-out to
//! bounded subscriber queues, and a freshness-bounded table that maps logical
//! camera identities to the network address last advertised for them.
//!
//! The library is a sequential state machine over plain values. Time is a
//! caller-supplied `u64` tick count; sharing between tasks is the caller's
//! concern.

pub mod text;
pub mod frame;
pub mod mdns_discovery;
pub mod multiplexer;
pub mod store;
pub mod page;
