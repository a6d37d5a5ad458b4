//! Refusing a write that would store a credential in the memory directory.
//!
//! The memory directory is not an ordinary destination. Anything in it is read
//! back into the system prompt of every later session in the same project, so a
//! credential written here is re-sent on every request until somebody opens the
//! file. The check refuses rather than rewrites. Everywhere else on disk it is
//! silent.
use vstd::prelude::*;
use crate::paths::{lies_in, path_lies_in};
use crate::text::{join, join_with, opt_view, views};

verus! {

/// Why a write is refused, where it is: the classes of credential that its
/// content carries, and the directory that memories are kept in.
///
/// The message names the class and never the value.
pub open spec fn refusal(path: Seq<char>, memory_dir: Seq<char>, classes: Seq<Seq<char>>) -> Option<
    Seq<char>,
> {
    if !lies_in(path, memory_dir) || classes.len() == 0 {
        None
    } else {
        Some(
            "This write was refused. "@ + path
                + " is a memory file, and the content carries what looks like a credential ("@
                + join(classes, ", "@)
                + "). A memory file is read back into the system prompt of every later session in this project, so a key stored here is re-sent on every request. Write the fact without the value: name the variable, not what it holds."@,
        )
    }
}

/// The refusal of a write into the memory directory that carries a credential, or
/// nothing when the write may proceed.
pub fn refuse_secret_write(path: &str, memory_dir: &str, classes: &Vec<String>) -> (r: Option<
    String,
>)
    ensures
        opt_view(r) == refusal(path@, memory_dir@, views(classes@)),
{
    assert(views(classes@).len() == classes@.len());
    if !path_lies_in(path, memory_dir) || classes.len() == 0 {
        return None;
    }
    let mut out = "This write was refused. ".to_string();
    out.push_str(path);
    out.push_str(" is a memory file, and the content carries what looks like a credential (");
    out.push_str(&join_with(classes, ", "));
    out.push_str(
        "). A memory file is read back into the system prompt of every later session in this project, so a key stored here is re-sent on every request. Write the fact without the value: name the variable, not what it holds.",
    );
    Some(out)
}

/// A write outside the memory directory is never refused.
pub proof fn elsewhere_is_not_guarded(
    path: Seq<char>,
    memory_dir: Seq<char>,
    classes: Seq<Seq<char>>,
)
    requires
        !lies_in(path, memory_dir),
    ensures
        refusal(path, memory_dir, classes) is None,
{
}

/// A write into the memory directory that carries a credential is always refused.
pub proof fn no_credential_reaches_a_memory_file(
    path: Seq<char>,
    memory_dir: Seq<char>,
    classes: Seq<Seq<char>>,
)
    requires
        lies_in(path, memory_dir),
        classes.len() > 0,
    ensures
        refusal(path, memory_dir, classes) is Some,
{
}

} // verus!
