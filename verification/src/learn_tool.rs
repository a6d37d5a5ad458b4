//! Recording one durable lesson.
use vstd::prelude::*;
use crate::text::{is_blank, trimmed};
use crate::{said, PermissionLevel, ToolResult};

verus! {

pub struct LearnTool;

impl LearnTool {
    pub fn name(&self) -> (out: &'static str)
        ensures
            out@ == "Learn"@,
    {
        "Learn"
    }

    pub fn permission_level(&self) -> (out: PermissionLevel)
        ensures
            out == PermissionLevel::Write,
    {
        PermissionLevel::Write
    }
}

/// Refuse a lesson that says nothing.
pub fn refuse_empty(lesson: &str) -> (r: Option<ToolResult>)
    ensures
        match r {
            Some(e) => trimmed(lesson@).len() == 0 && e@ == said(
                "lesson must not be empty"@,
                true,
            ),
            None => trimmed(lesson@).len() > 0,
        },
{
    if is_blank(lesson) {
        Some(ToolResult::error("lesson must not be empty".to_string()))
    } else {
        None
    }
}

} // verus!
