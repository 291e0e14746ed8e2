//! What holds of the library: laws over all inputs.

pub mod annotation;
pub mod block;
pub mod config;
pub mod constant;
pub mod error;
pub mod field;
pub mod item;
pub mod json;
pub mod message;
pub mod names;
pub mod rustdoc;
pub mod section;
pub mod structs;
pub mod text;
