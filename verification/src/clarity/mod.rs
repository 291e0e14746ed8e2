//! Serialisation traits of Clarity values, and the errors of the type checker.

pub mod errors;
pub mod traits;
