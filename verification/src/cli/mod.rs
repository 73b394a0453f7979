//! The command line: its arguments, and the rules behind each command.

pub mod archive;
pub mod create;
pub mod delete;
pub mod doctor;
pub mod init;
pub mod meta;
pub mod note;
pub mod query_cmd;
pub mod rename;
pub mod schema;
pub mod show;
pub mod update;

use vstd::prelude::*;

verus! {

/// The command line of `cortx`.
#[derive(Debug)]
pub struct Cli {
    /// Path to the vault directory (overrides all other sources).
    pub vault: Option<String>,
    /// Name of a registered vault from the global config.
    pub vault_name: Option<String>,
    pub command: Commands,
}

/// The commands.
#[derive(Debug)]
pub enum Commands {
    /// Initialize a new vault.
    Init(init::InitArgs),
    /// Create a new entity.
    Create(create::CreateArgs),
    /// Show an entity by ID.
    Show(show::ShowArgs),
    /// Update entity fields.
    Update(update::UpdateArgs),
    /// Archive an entity (soft delete).
    Archive(archive::ArchiveArgs),
    /// Delete an entity.
    Delete(delete::DeleteArgs),
    /// Run a query against the vault.
    Query(query_cmd::QueryArgs),
    /// Metadata aggregations (distinct, count-by).
    Meta(meta::MetaArgs),
    /// Note editing commands.
    Note(note::NoteArgs),
    /// Doctor / lint commands.
    Doctor(doctor::DoctorArgs),
    /// Rename an entity and the links to it.
    Rename(rename::RenameArgs),
    /// Describe the schema.
    Schema(schema::SchemaArgs),
}

} // verus!
