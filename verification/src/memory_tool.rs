//! Loading the bodies of the memory files that match a query.
use vstd::prelude::*;
use crate::text::{is_blank, join, join_with, trim, trimmed, views};
use crate::{said, PermissionLevel, ResultView, ToolResult};

verus! {

/// Files returned when the caller does not ask for a number.
pub const DEFAULT_MAX_FILES: usize = 3;

/// Ceiling on the number of files, whatever the caller asks for. Each file is a
/// whole document, so a large answer crowds out the conversation it was meant to
/// inform.
pub const MAX_FILES_LIMIT: usize = 10;

pub struct MemoryTool;

impl MemoryTool {
    pub fn name(&self) -> (out: &'static str)
        ensures
            out@ == "Memory"@,
    {
        "Memory"
    }

    pub fn permission_level(&self) -> (out: PermissionLevel)
        ensures
            out == PermissionLevel::ReadOnly,
    {
        PermissionLevel::ReadOnly
    }
}

/// How many files are loaded.
pub fn files_wanted(asked: Option<usize>) -> (n: usize)
    ensures
        n == (match asked {
            None => DEFAULT_MAX_FILES as int,
            Some(k) => if k < 1 {
                1
            } else if k > MAX_FILES_LIMIT {
                MAX_FILES_LIMIT as int
            } else {
                k as int
            },
        }),
        1 <= n <= MAX_FILES_LIMIT,
{
    match asked {
        None => DEFAULT_MAX_FILES,
        Some(k) => if k < 1 {
            1
        } else if k > MAX_FILES_LIMIT {
            MAX_FILES_LIMIT
        } else {
            k
        },
    }
}

/// Refuse a query that says nothing.
pub fn refuse_empty(query: &str) -> (r: Option<ToolResult>)
    ensures
        match r {
            Some(e) => trimmed(query@).len() == 0 && e@ == said("query must not be empty"@, true),
            None => trimmed(query@).len() > 0,
        },
{
    if is_blank(query) {
        Some(ToolResult::error("query must not be empty".to_string()))
    } else {
        None
    }
}

/// A memory file that matches.
#[derive(Debug)]
pub struct MatchingFile {
    pub filename: String,
    pub content: String,
    /// What is said of its age, where it is old.
    pub freshness: String,
}

/// One file as it is shown. The freshness note leads the body rather than
/// trailing it: by the time the model has read a stale claim it has already been
/// believed.
pub open spec fn file_section(f: MatchingFile) -> Seq<char> {
    f.freshness@ + "## "@ + f.filename@ + "\n\n"@ + trimmed(f.content@)
}

/// What the tool answers.
pub open spec fn memory_answer(
    query: Seq<char>,
    memory_dir: Seq<char>,
    files: Seq<MatchingFile>,
) -> ResultView {
    if files.len() == 0 {
        said(
            "No memory file matches \""@ + trimmed(query) + "\". The directory is "@ + memory_dir
                + "."@,
            false,
        )
    } else {
        said(
            join(Seq::new(files.len(), |i: int| file_section(files[i])), "\n\n---\n\n"@),
            false,
        )
    }
}

/// Answer with the files that match.
pub fn answer(query: &str, memory_dir: &str, files: &Vec<MatchingFile>) -> (r: ToolResult)
    ensures
        r@ == memory_answer(query@, memory_dir@, files@),
{
    if files.len() == 0 {
        let mut out = "No memory file matches \"".to_string();
        let asked = trim(query);
        out.push_str(&asked);
        out.push_str("\". The directory is ");
        out.push_str(memory_dir);
        out.push_str(".");
        return ToolResult::success(out);
    }
    let mut sections: Vec<String> = Vec::new();
    let mut i: usize = 0;
    while i < files.len()
        invariant
            i <= files@.len(),
            sections@.len() == i,
            forall|k: int| 0 <= k < i ==> (#[trigger] sections@[k])@ == file_section(files@[k]),
        decreases files.len() - i,
    {
        let mut section = files[i].freshness.clone();
        section.push_str("## ");
        section.push_str(&files[i].filename);
        section.push_str("\n\n");
        let body = trim(&files[i].content);
        section.push_str(&body);
        sections.push(section);
        i += 1;
    }
    assert(views(sections@) =~= Seq::new(files@.len(), |i: int| file_section(files@[i])));
    ToolResult::success(join_with(&sections, "\n\n---\n\n"))
}

/// Every file that matches has a section of its own in the answer, in order: how fresh
/// it is, its name, and what it says.
pub proof fn every_matching_file_is_answered(
    query: Seq<char>,
    memory_dir: Seq<char>,
    files: Seq<MatchingFile>,
)
    requires
        files.len() > 0,
    ensures
        memory_answer(query, memory_dir, files) == said(
            join(
                Seq::new(
                    files.len(),
                    |i: int|
                        files[i].freshness@ + "## "@ + files[i].filename@ + "\n\n"@ + trimmed(
                            files[i].content@,
                        ),
                ),
                "\n\n---\n\n"@,
            ),
            false,
        ),
{
    let expected = Seq::new(
        files.len(),
        |i: int|
            files[i].freshness@ + "## "@ + files[i].filename@ + "\n\n"@ + trimmed(
                files[i].content@,
            ),
    );
    assert(Seq::new(files.len(), |i: int| file_section(files[i])) =~= expected);
}

} // verus!
