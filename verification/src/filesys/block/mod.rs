//! Block devices.

pub mod memory;
