//! The engine that keeps memories in files.
use vstd::prelude::*;
use crate::memory_backend::MemoryHit;

verus! {

#[derive(Debug)]
pub struct FileBackend {
    pub memory_dir: String,
}

impl FileBackend {
    pub fn new(memory_dir: String) -> (b: FileBackend)
        ensures
            b.memory_dir@ == memory_dir@,
    {
        FileBackend { memory_dir }
    }

    /// A file that a search found, as a hit: under its file name.
    pub fn hit(&self, filename: &str, content: &str, modified_secs: u64) -> (h: MemoryHit)
        ensures
            h.title@ == filename@,
            h.body@ == content@,
            h.modified_secs == modified_secs,
    {
        MemoryHit { title: filename.to_string(), body: content.to_string(), modified_secs }
    }
}

} // verus!
