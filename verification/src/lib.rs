//! Generation of 64-bit time-sorted identifiers: a 42-bit millisecond
//! timestamp over a fixed epoch, a configurable node field, and a
//! per-millisecond counter, packed so that raw integer order follows
//! creation order.

pub mod factory;
pub mod tsid;

pub use crate::factory::TsidFactory;
pub use crate::tsid::TSID;
