//! Running a shell command in the background.
use vstd::prelude::*;
use crate::monitor_tool::TaskStatus;
use crate::output_filter::tee::{fit, fitting};
use crate::text::{
    byte_len, chars_of, decimal, number, signed, signed_number, size, string_of,
};

verus! {

/// How many bytes of a command its task is named by.
pub const NAME_LEN: usize = 60;

/// How many bytes of a command its task is named by.
pub open spec fn name_bytes(command: Seq<char>) -> int {
    if byte_len(command) < NAME_LEN {
        byte_len(command) as int
    } else {
        NAME_LEN as int
    }
}

/// Whether a command can be cut where its task's name is cut.
pub open spec fn names_cleanly(command: Seq<char>) -> bool {
    byte_len(command.take(fitting(command, name_bytes(command)))) == name_bytes(command)
}

/// The name of a command's task.
pub open spec fn name_of(command: Seq<char>) -> Seq<char> {
    "bg: "@ + command.take(fitting(command, name_bytes(command)))
}

fn cut(command: &str) -> (out: String)
    ensures
        out@ == command@.take(fitting(command@, name_bytes(command@))),
{
    let total: usize = size(command);
    let x = chars_of(command);
    let n: usize = fit(
        &x,
        if total < NAME_LEN {
            total
        } else {
            NAME_LEN
        },
    );
    let out = string_of(&x, 0, n);
    assert(out@ =~= command@.take(n as int));
    out
}

/// Whether a command's task can be named without cutting a character.
pub fn can_name(command: &str) -> (r: bool)
    ensures
        r == names_cleanly(command@),
{
    let total: usize = size(command);
    let head = cut(command);
    size(&head) == (if total < NAME_LEN {
        total
    } else {
        NAME_LEN
    })
}

/// The name of a command's task: what it begins with.
pub fn task_name(command: &str) -> (out: String)
    requires
        names_cleanly(command@),
    ensures
        out@ == name_of(command@),
{
    let mut out = "bg: ".to_string();
    let head = cut(command);
    out.push_str(&head);
    out
}

/// How a command ended.
#[derive(Debug)]
pub struct RunOutcome {
    pub exit_code: i32,
    pub timed_out: bool,
}

/// Why a task failed; none where it completed.
pub open spec fn failure(outcome: Result<RunOutcome, String>, timeout_ms: u64) -> Option<Seq<char>> {
    match outcome {
        Ok(o) => if o.timed_out {
            Some("timed out after "@ + decimal(timeout_ms as nat) + "ms"@)
        } else if o.exit_code == 0 {
            None
        } else {
            Some("exit code "@ + signed(o.exit_code as int))
        },
        Err(e) => Some(e@),
    }
}

/// The status to record for a task that ended; none where it was cancelled, which
/// is already recorded and is not to be overwritten.
pub fn report(cancelled: bool, outcome: &Result<RunOutcome, String>, timeout_ms: u64) -> (r: Option<
    TaskStatus,
>)
    ensures
        match r {
            None => cancelled,
            Some(TaskStatus::Completed) => !cancelled && failure(*outcome, timeout_ms) is None,
            Some(TaskStatus::Failed(e)) => !cancelled && failure(*outcome, timeout_ms) == Some(e@),
            _ => false,
        },
{
    if cancelled {
        return None;
    }
    match outcome {
        Ok(o) => {
            if o.timed_out {
                let mut e = "timed out after ".to_string();
                e.push_str(&number(timeout_ms));
                e.push_str("ms");
                Some(TaskStatus::Failed(e))
            } else if o.exit_code == 0 {
                Some(TaskStatus::Completed)
            } else {
                let mut e = "exit code ".to_string();
                e.push_str(&signed_number(o.exit_code as i64));
                Some(TaskStatus::Failed(e))
            }
        },
        Err(e) => Some(TaskStatus::Failed(e.clone())),
    }
}

/// Whether a character ends a line.
pub open spec fn ends_line(c: char) -> bool {
    c == '\r' || c == '\n'
}

/// A line without what ends it.
pub open spec fn bare_line(s: Seq<char>) -> Seq<char>
    decreases s.len(),
{
    if s.len() > 0 && ends_line(s.last()) {
        bare_line(s.drop_last())
    } else {
        s
    }
}

/// A line of output as the task keeps it: without what ends it.
pub fn output_line(line: &str) -> (out: String)
    ensures
        out@ == bare_line(line@),
{
    let x = chars_of(line);
    let mut n: usize = x.len();
    assert(x@.take(n as int) =~= line@);
    while n > 0 && (x[n - 1] == '\r' || x[n - 1] == '\n')
        invariant
            n <= x@.len(),
            bare_line(x@.take(n as int)) == bare_line(line@),
        decreases n,
    {
        assert(x@.take(n as int).drop_last() =~= x@.take(n - 1));
        n -= 1;
    }
    let out = string_of(&x, 0, n);
    assert(out@ =~= x@.take(n as int));
    out
}

/// A line of output loses the line ends behind it and nothing else.
pub proof fn only_line_ends_are_taken(s: Seq<char>)
    ensures
        bare_line(s).len() <= s.len(),
        bare_line(s) == s.take(bare_line(s).len() as int),
        forall|i: int|
            bare_line(s).len() <= i < s.len() ==> #[trigger] s[i] == '\n' || s[i] == '\r',
        bare_line(s).len() > 0 ==> bare_line(s).last() != '\n' && bare_line(s).last() != '\r',
    decreases s.len(),
{
    if s.len() > 0 && ends_line(s.last()) {
        let front = s.drop_last();
        only_line_ends_are_taken(front);
        assert(front.take(bare_line(s).len() as int) =~= s.take(bare_line(s).len() as int));
        assert forall|i: int| bare_line(s).len() <= i < s.len() implies #[trigger] s[i] == '\n'
            || s[i] == '\r' by {
            if i < front.len() {
                assert(front[i] == s[i]);
            }
        }
    } else {
        assert(s.take(s.len() as int) =~= s);
    }
}

/// A background run has failed unless it ran to its end and came to zero.
pub proof fn only_a_clean_run_succeeds(outcome: Result<RunOutcome, String>, timeout_ms: u64)
    ensures
        failure(outcome, timeout_ms) is None <==> (outcome is Ok && !outcome->Ok_0.timed_out
            && outcome->Ok_0.exit_code == 0),
        outcome is Ok && outcome->Ok_0.timed_out ==> failure(outcome, timeout_ms) == Some(
            "timed out after "@ + decimal(timeout_ms as nat) + "ms"@,
        ),
        outcome is Err ==> failure(outcome, timeout_ms) == Some(outcome->Err_0@),
{
}

/// A background run is named by its command, whole where it is short, and else by as
/// much of its beginning as sixty bytes hold.
pub proof fn a_run_is_named_by_its_command(command: Seq<char>)
    ensures
        byte_len(command) <= 60 ==> name_bytes(command) == byte_len(command),
        byte_len(command) > 60 ==> name_bytes(command) == 60,
        name_of(command) == "bg: "@ + command.take(fitting(command, name_bytes(command))),
{
}

} // verus!
