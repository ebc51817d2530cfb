//! A verified model of a select loop: a fixed set of asynchronous sources is
//! merged into one ordered event loop through a rendezvous channel, with one
//! forwarding task per source, per-iteration hooks, early termination, and
//! cooperative cancellation of outstanding forwarders on every exit path.

pub mod channel;
pub mod config;
pub mod control;
pub mod driver;
pub mod engine;
pub mod forwarder;

pub use control::LoopCtl;
pub use control::Termination;
pub use control::TraceEvent;
