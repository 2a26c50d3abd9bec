//! Shared error type.

pub mod error;

pub use error::{Error, Result};
