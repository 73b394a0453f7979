//! A lock on an entity file: a `.lock` file beside it, removed once.

use vstd::prelude::*;

verus! {

/// The lock file that guards `file_path`: the same path with `.lock` added.
pub open spec fn lock_path_of(file_path: Seq<char>) -> Seq<char> {
    file_path + ".lock"@
}

/// The path of the lock file that guards `file_path`.
pub fn lock_path_for(file_path: &str) -> (r: String)
    ensures
        r@ == lock_path_of(file_path@),
{
    let mut r = file_path.to_owned();
    r.append(".lock");
    r
}

/// A held lock on an entity file.
#[derive(Debug)]
pub struct FileLock {
    lock_path: String,
    released: bool,
}

impl FileLock {
    /// The lock that guards `file_path`, once its lock file has been created.
    pub fn new(file_path: &str) -> (r: FileLock)
        ensures
            r.lock_path()@ == lock_path_of(file_path@),
            !r.is_released(),
    {
        FileLock { lock_path: lock_path_for(file_path), released: false }
    }

    /// The path of the lock file.
    pub closed spec fn lock_path(&self) -> String {
        self.lock_path
    }

    /// Whether the lock has been released.
    pub closed spec fn is_released(&self) -> bool {
        self.released
    }

    /// The path of the lock file.
    pub fn path(&self) -> (r: &str)
        ensures
            r@ == self.lock_path()@,
    {
        self.lock_path.as_str()
    }

    /// Releases the lock: the first time, marks it released and gives the
    /// lock file to remove; afterwards gives nothing, so the file is removed
    /// at most once.
    pub fn release(&mut self) -> (r: Option<String>)
        ensures
            final(self).is_released(),
            final(self).lock_path() == old(self).lock_path(),
            !old(self).is_released() ==> (r matches Some(p) && p@ == old(self).lock_path()@),
            old(self).is_released() ==> r is None,
    {
        if self.released {
            None
        } else {
            self.released = true;
            Some(self.lock_path.clone())
        }
    }
}

} // verus!
