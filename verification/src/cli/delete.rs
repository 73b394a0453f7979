//! Deleting an entity.

use vstd::prelude::*;

verus! {

/// The arguments of `cortx delete`.
#[derive(Debug)]
pub struct DeleteArgs {
    pub id: String,
    pub force: bool,
}

} // verus!
