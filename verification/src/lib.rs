//! Secure erasure of block storage devices: fill patterns, the storage
//! interface a wipe needs, and the engine that drives a scheme over a device.

pub mod actions;
pub mod sanitization;
pub mod storage;
