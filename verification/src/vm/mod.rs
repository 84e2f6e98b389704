//! The virtual machine's runtime errors.

pub mod error;
pub mod primitive;
