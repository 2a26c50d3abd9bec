//! Analysis passes.

pub mod behavior;
pub mod functions;
pub mod patterns;
pub mod report;
pub mod strings;
pub mod types;
pub mod xrefs;

pub use functions::{FunctionDetectionInputs, FunctionDetector, FunctionInfo};
pub use types::TypeInfo;
