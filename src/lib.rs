//! A relay hub core: length-prefixed framing, a single distributor that fans
//! each message out to every other peer, and the per-connection decisions.

pub mod frame;
pub mod distributor;
pub mod handler;
pub mod listener;
