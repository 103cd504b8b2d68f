//! Helpers around the core: paths, counters, and records of what an
//! analysis did.

pub mod file_utils;
pub mod logging;
pub mod memory;
pub mod performance;
