//! The engines behind the memory directory.
use vstd::prelude::*;
use crate::memory_backend::file::FileBackend;
use crate::memory_backend::sqlite::SqliteBackend;
use crate::text::{is_some_text, opt_view};

pub mod file;
pub mod sqlite;

verus! {

/// One memory a search returned, independent of the engine that stored it.
#[derive(Debug)]
pub struct MemoryHit {
    /// A heading for the hit; the filename for the file engine.
    pub title: String,
    /// The full body to show the model.
    pub body: String,
    /// Modification time in unix seconds, for the freshness note.
    pub modified_secs: u64,
}

/// The engine a session uses.
#[derive(Debug)]
pub enum Backend {
    File(FileBackend),
    Sqlite(SqliteBackend),
}

/// Select the engine for a `memoryBackend` setting. `sqlite` selects the sqlite
/// engine; every other value, none included, is the file engine.
///
/// Selecting the file engine while a `memory.db` is present exports it back to
/// `.md` files first, so a project that switches gets its stored memories back.
pub fn backend_for(backend: &Option<String>, memory_dir: &str) -> (b: Backend)
    ensures
        match b {
            Backend::Sqlite(s) => opt_view(*backend) == Some("sqlite"@) && s.memory_dir@
                == memory_dir@,
            Backend::File(f) => opt_view(*backend) != Some("sqlite"@) && f.memory_dir@
                == memory_dir@,
        },
{
    if is_some_text(backend, "sqlite") {
        Backend::Sqlite(SqliteBackend::new(memory_dir.to_string()))
    } else {
        Backend::File(FileBackend::new(memory_dir.to_string()))
    }
}

} // verus!
