//! The inference backends.

pub mod coreml;
pub mod litert;
pub mod litert_sys;
