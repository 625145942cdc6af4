//! A differential test bench for interchangeable native implementations of a
//! Madgwick sensor-fusion filter.
//!
//! The library decides which candidate modules are tried, which of their entry
//! points are used, and how the outcomes of one run are collected and ordered.
//! Loading native code and calling into it is done by an implementation of
//! [`module::NativeModule`] supplied by the caller.

pub mod measurement;
pub mod aggregate;
pub mod bench;
pub mod catalog;
pub mod module;

pub use measurement::{Axis, Measurement, Quaternion};
pub use module::{Capabilities, EntryPoint, FilterModule, LoadError, NativeModule};
pub use aggregate::{aggregate, id_le_exec};
pub use catalog::{discover, discover_with_extension, ExplicitPath, ScannedEntry};
pub use bench::{LoadFailure, TestBench, TestRun};
