//! How a watching advisor puts a note in front of the agent it watches.
use vstd::prelude::*;
use crate::text::{opt_view, same, trim, trimmed};
use crate::{said, PermissionLevel, ToolResult};

verus! {

pub struct AdviseTool;

impl AdviseTool {
    pub fn name(&self) -> (out: &'static str)
        ensures
            out@ == "Advise"@,
    {
        "Advise"
    }

    pub fn permission_level(&self) -> (out: PermissionLevel)
        ensures
            out == PermissionLevel::NotNeeded,
    {
        PermissionLevel::NotNeeded
    }
}

/// How strongly a note is to be weighed.
#[derive(Debug, PartialEq, Eq, Clone, Copy, Structural)]
pub enum AdvisorSeverity {
    Nit,
    Concern,
    Blocker,
}

/// The severity a name stands for. One that cannot be read must not interrupt a
/// turn, so it reads as the mildest.
pub open spec fn severity_of(name: Option<Seq<char>>) -> AdvisorSeverity {
    if name == Some("concern"@) {
        AdvisorSeverity::Concern
    } else if name == Some("blocker"@) {
        AdvisorSeverity::Blocker
    } else {
        AdvisorSeverity::Nit
    }
}

impl AdvisorSeverity {
    /// The severity a name stands for.
    pub fn parse(name: &Option<String>) -> (s: AdvisorSeverity)
        ensures
            s == severity_of(opt_view(*name)),
    {
        match name {
            Some(name) => {
                if same(name, "concern") {
                    AdvisorSeverity::Concern
                } else if same(name, "blocker") {
                    AdvisorSeverity::Blocker
                } else {
                    AdvisorSeverity::Nit
                }
            },
            None => AdvisorSeverity::Nit,
        }
    }
}

/// A note for the agent that is watched.
#[derive(Debug)]
pub struct AdvisorNote {
    pub advisor: Option<String>,
    pub severity: AdvisorSeverity,
    pub note: String,
}

/// Why there is no note to send, where there is none.
pub open spec fn refused(note: Seq<char>, watching: bool) -> Option<Seq<char>> {
    if trimmed(note).len() == 0 {
        Some("A note with no text says nothing. Say what is wrong."@)
    } else if !watching {
        Some("This session has nobody to advise. `Advise` belongs to a watching advisor."@)
    } else {
        None
    }
}

/// Make the note to send. `watching` says whether this session watches another.
pub fn advise(note: &str, severity: &Option<String>, advisor: &Option<String>, watching: bool) -> (r:
    Result<AdvisorNote, ToolResult>)
    ensures
        match r {
            Ok(n) => {
                &&& refused(note@, watching) is None
                &&& n.note@ == trimmed(note@)
                &&& n.severity == severity_of(opt_view(*severity))
                &&& opt_view(n.advisor) == opt_view(*advisor)
            },
            Err(e) => refused(note@, watching) matches Some(text) && e@ == said(text, true),
        },
{
    let text = trim(note);
    if text.as_str().is_empty() {
        return Err(
            ToolResult::error("A note with no text says nothing. Say what is wrong.".to_string()),
        );
    }
    if !watching {
        return Err(
            ToolResult::error(
                "This session has nobody to advise. `Advise` belongs to a watching advisor.".to_string(),
            ),
        );
    }
    let author = match advisor {
        Some(name) => Some(name.clone()),
        None => None,
    };
    Ok(AdvisorNote { advisor: author, severity: AdvisorSeverity::parse(severity), note: text })
}

/// Answer a note that was sent, or could not be. It is always "recorded",
/// whatever is decided downstream: telling the model its note was dropped
/// teaches it to rephrase the same useless note until one gets through.
pub fn sent(ok: bool) -> (r: ToolResult)
    ensures
        r@ == (if ok {
            said("Recorded."@, false)
        } else {
            said("The session this advice was for has ended."@, true)
        }),
{
    if ok {
        ToolResult::success("Recorded.".to_string())
    } else {
        ToolResult::error("The session this advice was for has ended.".to_string())
    }
}

/// A note is a nit unless it is called a concern or a blocker.
pub proof fn a_note_is_a_nit_unless_called_more(name: Option<Seq<char>>)
    ensures
        severity_of(name) == AdvisorSeverity::Concern <==> name == Some("concern"@),
        severity_of(name) == AdvisorSeverity::Blocker <==> name == Some("blocker"@),
        severity_of(None) == AdvisorSeverity::Nit,
{
    reveal_strlit("concern");
    reveal_strlit("blocker");
    assert("concern"@[0] == 'c' && "blocker"@[0] == 'b');
}

/// A note is taken where, and only where, it says something and somebody listens.
pub proof fn a_note_is_taken_where_it_says_something(note: Seq<char>, watching: bool)
    ensures
        refused(note, watching) is None <==> trimmed(note).len() > 0 && watching,
{
}

} // verus!
