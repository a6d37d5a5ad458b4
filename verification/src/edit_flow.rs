//! The order of an edit: what has to go well before a file is written, and what
//! follows once it is.
use vstd::prelude::*;

verus! {

/// What an edit is waiting for.
#[derive(Debug, PartialEq, Eq, Clone, Copy, Structural)]
pub enum EditPhase {
    /// Two strings that make an edit.
    Strings,
    /// The path, resolved.
    Path,
    /// The permission to edit there.
    Permission,
    /// The text of the file.
    Read,
    /// The text with the edit in it.
    Plan,
    /// The word that no credential goes into a memory file.
    Credentials,
    /// The file, written.
    Write,
    /// The change, entered in the history.
    History,
    /// The formatter.
    Format,
    /// The text as the formatter left it, remembered as seen.
    Remember,
    /// What the language servers say of it.
    Report,
    /// Nothing: the answer stands.
    Over,
}

/// The phase that comes `n`-th when all goes well.
pub open spec fn nth_phase(n: int) -> EditPhase {
    if n <= 0 {
        EditPhase::Strings
    } else if n == 1 {
        EditPhase::Path
    } else if n == 2 {
        EditPhase::Permission
    } else if n == 3 {
        EditPhase::Read
    } else if n == 4 {
        EditPhase::Plan
    } else if n == 5 {
        EditPhase::Credentials
    } else if n == 6 {
        EditPhase::Write
    } else if n == 7 {
        EditPhase::History
    } else if n == 8 {
        EditPhase::Format
    } else if n == 9 {
        EditPhase::Remember
    } else if n == 10 {
        EditPhase::Report
    } else {
        EditPhase::Over
    }
}

/// Where a phase comes when all goes well.
pub open spec fn rank(phase: EditPhase) -> int {
    match phase {
        EditPhase::Strings => 0,
        EditPhase::Path => 1,
        EditPhase::Permission => 2,
        EditPhase::Read => 3,
        EditPhase::Plan => 4,
        EditPhase::Credentials => 5,
        EditPhase::Write => 6,
        EditPhase::History => 7,
        EditPhase::Format => 8,
        EditPhase::Remember => 9,
        EditPhase::Report => 10,
        EditPhase::Over => 11,
    }
}

/// What follows a phase: the next one, or the end where it went wrong. Once the
/// file is written nothing ends the edit early.
pub open spec fn edit_follows(phase: EditPhase, well: bool) -> EditPhase {
    if !well && rank(phase) <= rank(EditPhase::Write) {
        EditPhase::Over
    } else {
        nth_phase(rank(phase) + 1)
    }
}

/// Say what follows a phase.
pub fn next_edit_phase(phase: EditPhase, well: bool) -> (next: EditPhase)
    ensures
        next == edit_follows(phase, well),
{
    match phase {
        EditPhase::Strings => if well {
            EditPhase::Path
        } else {
            EditPhase::Over
        },
        EditPhase::Path => if well {
            EditPhase::Permission
        } else {
            EditPhase::Over
        },
        EditPhase::Permission => if well {
            EditPhase::Read
        } else {
            EditPhase::Over
        },
        EditPhase::Read => if well {
            EditPhase::Plan
        } else {
            EditPhase::Over
        },
        EditPhase::Plan => if well {
            EditPhase::Credentials
        } else {
            EditPhase::Over
        },
        EditPhase::Credentials => if well {
            EditPhase::Write
        } else {
            EditPhase::Over
        },
        EditPhase::Write => if well {
            EditPhase::History
        } else {
            EditPhase::Over
        },
        EditPhase::History => EditPhase::Format,
        EditPhase::Format => EditPhase::Remember,
        EditPhase::Remember => EditPhase::Report,
        EditPhase::Report => EditPhase::Over,
        EditPhase::Over => EditPhase::Over,
    }
}

/// Where an edit stands after its phases went as they did.
pub open spec fn edit_stands(so_far: Seq<bool>) -> EditPhase
    decreases so_far.len(),
{
    if so_far.len() == 0 {
        EditPhase::Strings
    } else {
        edit_follows(edit_stands(so_far.drop_last()), so_far.last())
    }
}

/// An edit that has not ended has come as far as its phases count, and each of
/// them up to the write went well.
proof fn an_open_edit_went_well(so_far: Seq<bool>)
    requires
        edit_stands(so_far) != EditPhase::Over,
    ensures
        rank(edit_stands(so_far)) == so_far.len(),
        forall|k: int| 0 <= k < so_far.len() && k <= rank(EditPhase::Write) ==> so_far[k],
    decreases so_far.len(),
{
    if so_far.len() > 0 {
        let before = so_far.drop_last();
        an_open_edit_went_well(before);
        assert forall|k: int|
            0 <= k < so_far.len() && k <= rank(EditPhase::Write) implies so_far[k] by {
            if k < before.len() {
                assert(before[k] == so_far[k]);
            }
        }
    }
}

/// A file is written only after the path was resolved, the permission given, the
/// text read, the edit planned and the credentials looked for, all of it well.
pub proof fn nothing_is_written_unpermitted(so_far: Seq<bool>)
    requires
        edit_stands(so_far) == EditPhase::Write,
    ensures
        so_far == seq![true, true, true, true, true, true],
{
    an_open_edit_went_well(so_far);
}

/// What was written is remembered and reported, whatever goes wrong afterwards:
/// the phases that follow a write all come.
pub proof fn what_was_written_is_remembered(so_far: Seq<bool>)
    requires
        7 <= so_far.len(),
        forall|k: int| 0 <= k < 7 ==> so_far[k],
    ensures
        edit_stands(so_far) == nth_phase(so_far.len() as int),
    decreases so_far.len(),
{
    let before = so_far.drop_last();
    if so_far.len() > 7 {
        assert forall|k: int| 0 <= k < 7 implies before[k] by {
            assert(before[k] == so_far[k]);
        }
        what_was_written_is_remembered(before);
        assert(edit_stands(before) == nth_phase(before.len() as int));
    } else {
        all_well(before);
        assert(so_far.last());
    }
}

proof fn all_well(so_far: Seq<bool>)
    requires
        so_far.len() <= 7,
        forall|k: int| 0 <= k < so_far.len() ==> so_far[k],
    ensures
        edit_stands(so_far) == nth_phase(so_far.len() as int),
    decreases so_far.len(),
{
    if so_far.len() > 0 {
        let before = so_far.drop_last();
        assert forall|k: int| 0 <= k < before.len() implies before[k] by {
            assert(before[k] == so_far[k]);
        }
        all_well(before);
        assert(so_far.last());
    }
}

/// An edit comes to its end within as many steps as it has phases.
pub proof fn an_edit_ends(phase: EditPhase, well: bool)
    requires
        phase != EditPhase::Over,
    ensures
        rank(edit_follows(phase, well)) > rank(phase),
        rank(edit_follows(phase, well)) <= rank(EditPhase::Over),
{
}

} // verus!
