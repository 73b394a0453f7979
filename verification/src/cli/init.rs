//! Initialising a vault: its folders, and its registration under a name.

use vstd::prelude::*;
use crate::error::CortxError;
use crate::global_config::GlobalConfig;

verus! {

/// The arguments of `cortx init`.
#[derive(Debug)]
pub struct InitArgs {
    /// Path to create the vault in (defaults to the current directory).
    pub path: Option<String>,
    /// Register this vault under a name in the global config.
    pub name: Option<String>,
}

/// The folders of a new vault, parents before children.
pub fn vault_folders() -> (r: Vec<&'static str>)
    ensures
        r@.map_values(|f: &str| f@) == seq![
            "0_Inbox"@,
            "1_Projects"@,
            "1_Projects/tasks"@,
            "2_Areas"@,
            "3_Resources"@,
            "3_Resources/notes"@,
            "4_Archive"@,
            "5_People"@,
            "5_Companies"@,
        ],
{
    let mut r: Vec<&'static str> = Vec::new();
    r.push("0_Inbox");
    r.push("1_Projects");
    r.push("1_Projects/tasks");
    r.push("2_Areas");
    r.push("3_Resources");
    r.push("3_Resources/notes");
    r.push("4_Archive");
    r.push("5_People");
    r.push("5_Companies");
    assert(r@.map_values(|f: &str| f@) =~= seq![
        "0_Inbox"@,
        "1_Projects"@,
        "1_Projects/tasks"@,
        "2_Areas"@,
        "3_Resources"@,
        "3_Resources/notes"@,
        "4_Archive"@,
        "5_People"@,
        "5_Companies"@,
    ]);
    r
}

/// Registers a new vault; the first vault registered becomes the default.
/// Tells whether it did.
pub fn register_new_vault(global: &mut GlobalConfig, name: &str, path: String) -> (r: Result<
    bool,
    CortxError,
>)
    ensures
        old(global).vaults@.contains_key(name@) ==> r is Err && final(global).vaults@ == old(
            global,
        ).vaults@ && final(global).default == old(global).default,
        !old(global).vaults@.contains_key(name@) ==> r is Ok && final(global).vaults@.contains_key(
            name@,
        ) && final(global).vaults@[name@].path@ == path@ && final(global).vaults@.dom()
            == old(global).vaults@.dom().insert(name@),
        r == Ok::<bool, CortxError>(true) <==> (r is Ok && final(global).vaults@.dom().len() == 1),
        r == Ok::<bool, CortxError>(true) ==> (final(global).default matches Some(d) && d@ == name@),
        r is Err || r == Ok::<bool, CortxError>(true) || final(global).default == old(global).default,
{
    let ghost p = path@;
    match global.register_vault(name, path) {
        Err(e) => Err(e),
        Ok(()) => {
            proof {
                assert(global.vaults@.dom() =~= old(global).vaults@.dom().insert(name@));
            }
            if global.vaults.len() == 1 {
                global.default = Some(name.to_owned());
                Ok(true)
            } else {
                Ok(false)
            }
        },
    }
}

} // verus!
