//! Entity types: their folders, fields and rules.

pub mod registry;
pub mod types;
pub mod validation;
