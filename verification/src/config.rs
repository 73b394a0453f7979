//! The vault a command works on, and its type registry.

use vstd::prelude::*;
use crate::schema::registry::TypeRegistry;

verus! {

/// The vault directory and the types it holds.
#[derive(Debug)]
pub struct Config {
    pub vault_path: String,
    pub registry: TypeRegistry,
}

} // verus!
