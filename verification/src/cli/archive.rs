//! Archiving an entity: a soft delete that sets its status.

use vstd::prelude::*;
use crate::cli::create::pairs_view;
use crate::value::{Value, ValueV};

verus! {

/// The arguments of `cortx archive`.
#[derive(Debug)]
pub struct ArchiveArgs {
    pub id: String,
}

/// The update that archives an entity: `status` set to `archived`.
pub fn archive_updates() -> (r: Vec<(String, Value)>)
    ensures
        pairs_view(r@) == seq![("status"@, ValueV::Str("archived"@))],
{
    let mut r: Vec<(String, Value)> = Vec::new();
    r.push(("status".to_owned(), Value::String("archived".to_owned())));
    assert(pairs_view(r@) =~= seq![("status"@, ValueV::Str("archived"@))]);
    r
}

} // verus!
