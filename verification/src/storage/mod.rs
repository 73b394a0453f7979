//! Rules of the Markdown store that do not touch the disk.

pub mod file_lock;
pub mod markdown;
