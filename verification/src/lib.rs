//! Metrics and the wire format that the model server speaks to its model containers.

pub mod wire;
pub mod rpc;
pub mod roundtrip;
pub mod compress;
pub mod counter;
pub mod reservoir;
pub mod meter;
pub mod report;
