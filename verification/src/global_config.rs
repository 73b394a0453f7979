//! The user's list of named vaults (`~/.cortx/config.toml`).

use vstd::prelude::*;
use crate::error::CortxError;
use crate::name_map::NameMap;

verus! {

/// Where a named vault lives.
#[derive(Debug)]
pub struct VaultEntry {
    pub path: String,
}

/// The named vaults, and the one used when no name is given.
#[derive(Debug)]
pub struct GlobalConfig {
    pub default: Option<String>,
    pub vaults: NameMap<VaultEntry>,
}

impl Default for GlobalConfig {
    /// No vault and no default.
    fn default() -> (r: Self)
        ensures
            r.default is None,
            r.vaults@ == Map::<Seq<char>, VaultEntry>::empty(),
    {
        GlobalConfig { default: None, vaults: NameMap::new() }
    }
}

/// The path of a vault entry as text.
pub open spec fn entry_path(e: VaultEntry) -> Seq<char> {
    e.path@
}

impl GlobalConfig {
    /// Registers a vault under a new name; a name that is already registered
    /// is refused, and the configuration is left as it was.
    pub fn register_vault(&mut self, name: &str, path: String) -> (r: Result<(), CortxError>)
        ensures
            old(self).vaults@.contains_key(name@) ==> (r matches Err(CortxError::Storage(m)) && m@
                == "vault name '"@ + name@ + "' is already registered"@) && final(self).vaults@
                == old(self).vaults@,
            !old(self).vaults@.contains_key(name@) ==> r is Ok && final(self).vaults@ == old(
                self,
            ).vaults@.insert(name@, VaultEntry { path }),
            final(self).default == old(self).default,
    {
        if self.vaults.contains_key(name) {
            let mut m = "vault name '".to_owned();
            m.append(name);
            m.append("' is already registered");
            return Err(CortxError::Storage(m));
        }
        self.vaults.insert(name.to_owned(), VaultEntry { path });
        Ok(())
    }

    /// The path of the vault `name`, or of the default vault when no name is
    /// given; `None` when there is no such vault.
    pub fn resolve_path(&self, name: Option<&str>) -> (r: Option<String>)
        ensures
            match name {
                Some(n) => match r {
                    Some(p) => self.vaults@.contains_key(n@) && p@ == entry_path(self.vaults@[n@]),
                    None => !self.vaults@.contains_key(n@),
                },
                None => match self.default {
                    Some(d) => match r {
                        Some(p) => self.vaults@.contains_key(d@) && p@ == entry_path(
                            self.vaults@[d@],
                        ),
                        None => !self.vaults@.contains_key(d@),
                    },
                    None => r is None,
                },
            },
    {
        let key: &str = match name {
            Some(n) => n,
            None => match &self.default {
                Some(d) => d.as_str(),
                None => return None,
            },
        };
        match self.vaults.get(key) {
            Some(e) => Some(e.path.clone()),
            None => None,
        }
    }

    /// The path of the vault registered as `name`; a name that is not
    /// registered is a storage error.
    pub fn vault_named(&self, name: &str) -> (r: Result<String, CortxError>)
        ensures
            match r {
                Ok(p) => self.vaults@.contains_key(name@) && p@ == entry_path(self.vaults@[name@]),
                Err(e) => !self.vaults@.contains_key(name@) && (e matches CortxError::Storage(m)
                    && m@ == "vault '"@ + name@ + "' not found in global config"@),
            },
    {
        match self.resolve_path(Some(name)) {
            Some(p) => Ok(p),
            None => {
                let mut m = "vault '".to_owned();
                m.append(name);
                m.append("' not found in global config");
                Err(CortxError::Storage(m))
            },
        }
    }
}

/// A registered vault is found again under its name.
pub proof fn lemma_register_then_resolve(
    before: Map<Seq<char>, VaultEntry>,
    name: Seq<char>,
    path: String,
)
    requires
        !before.contains_key(name),
    ensures
        before.insert(name, VaultEntry { path }).contains_key(name),
        entry_path(before.insert(name, VaultEntry { path })[name]) == path@,
{
}

} // verus!
