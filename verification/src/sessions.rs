//! What is kept for a session across its shell calls.
//!
//! `cd`, `export`, an alias and a shell function outlive the command that set
//! them only where every call of a session reaches the same shell.
use vstd::prelude::*;
use crate::assoc::Assoc;
use crate::table::{contents, empty, get, insert, remove};

verus! {

/// Persistent shell state shared across shell calls within one session.
#[derive(Debug)]
pub struct ShellState {
    /// Current working directory. Starts as none, which is the session's own;
    /// updated after each `cd`.
    pub cwd: Option<String>,
    /// Environment variables exported by previous commands.
    pub env_vars: Assoc<String>,
}

impl ShellState {
    pub fn new() -> (s: ShellState)
        ensures
            s.cwd is None,
            forall|name: Seq<char>| #[trigger] s.env_vars.lookup(name) is None,
    {
        ShellState { cwd: None, env_vars: Assoc::new() }
    }
}

/// Which bundled utilities a session asks for.
#[derive(Debug, PartialEq, Eq, Clone, Copy, Structural)]
pub enum BundledUtilities {
    Prefer,
    Fallback,
}

/// The shell's own name for that choice.
#[derive(Debug, PartialEq, Eq, Clone, Copy, Structural)]
pub enum ShellUtilities {
    Prefer,
    Fallback,
}

/// The shell's own name for a choice made in the settings.
pub fn bundled_policy(choice: BundledUtilities) -> (out: ShellUtilities)
    ensures
        out == (match choice {
            BundledUtilities::Prefer => ShellUtilities::Prefer,
            BundledUtilities::Fallback => ShellUtilities::Fallback,
        }),
{
    match choice {
        BundledUtilities::Prefer => ShellUtilities::Prefer,
        BundledUtilities::Fallback => ShellUtilities::Fallback,
    }
}

/// What each session keeps: its shell state, its embedded shell and its
/// PowerShell interpreter, each by the key under which the caller holds it.
#[derive(Debug)]
pub struct Sessions {
    states: dashmap::DashMap<String, String>,
    shells: dashmap::DashMap<String, String>,
    interpreters: dashmap::DashMap<String, String>,
}

/// What a table answers to a session that may be new: what it holds, or what was
/// opened.
pub open spec fn first_kept(
    table: Map<Seq<char>, Seq<char>>,
    session: Seq<char>,
    opened: Seq<char>,
) -> Seq<char> {
    if table.dom().contains(session) {
        table[session]
    } else {
        opened
    }
}

/// The table after that.
pub open spec fn kept_for(
    table: Map<Seq<char>, Seq<char>>,
    session: Seq<char>,
    opened: Seq<char>,
) -> Map<Seq<char>, Seq<char>> {
    if table.dom().contains(session) {
        table
    } else {
        table.insert(session, opened)
    }
}

fn keep_first(table: &mut dashmap::DashMap<String, String>, session: &str, opened: &str) -> (out:
    String)
    ensures
        out@ == first_kept(contents(*old(table)), session@, opened@),
        contents(*final(table)) == kept_for(contents(*old(table)), session@, opened@),
{
    match get(table, session) {
        Some(kept) => kept,
        None => {
            insert(table, session, opened);
            opened.to_string()
        },
    }
}

impl Sessions {
    /// The shell state of each session.
    pub closed spec fn states(&self) -> Map<Seq<char>, Seq<char>> {
        contents(self.states)
    }

    /// The embedded shell of each session.
    pub closed spec fn shells(&self) -> Map<Seq<char>, Seq<char>> {
        contents(self.shells)
    }

    /// The PowerShell interpreter of each session.
    pub closed spec fn interpreters(&self) -> Map<Seq<char>, Seq<char>> {
        contents(self.interpreters)
    }

    /// Nothing is kept.
    pub fn new() -> (s: Sessions)
        ensures
            s.states().dom() == Set::<Seq<char>>::empty(),
            s.shells().dom() == Set::<Seq<char>>::empty(),
            s.interpreters().dom() == Set::<Seq<char>>::empty(),
    {
        Sessions { states: empty(), shells: empty(), interpreters: empty() }
    }

    /// The shell state of a session; the fresh one where it has none yet.
    pub fn session_shell_state(&mut self, session_id: &str, fresh: &str) -> (out: String)
        ensures
            out@ == first_kept(old(self).states(), session_id@, fresh@),
            final(self).states() == kept_for(
                old(self).states(),
                session_id@,
                fresh@,
            ),
            final(self).shells() == old(self).shells(),
            final(self).interpreters() == old(self).interpreters(),
    {
        keep_first(&mut self.states, session_id, fresh)
    }

    /// The embedded shell a session has already.
    pub fn open_shell(&self, session_id: &str) -> (out: Option<String>)
        ensures
            match out {
                Some(s) => self.shells().dom().contains(session_id@)
                    && self.shells()[session_id@] == s@,
                None => !self.shells().dom().contains(session_id@),
            },
    {
        get(&self.shells, session_id)
    }

    /// The embedded shell of a session, after one was opened for it. Another call
    /// may have opened one meanwhile: whichever landed first is the session's, and
    /// the other is dropped.
    pub fn session_brush_shell(&mut self, session_id: &str, opened: &str) -> (out: String)
        ensures
            out@ == first_kept(old(self).shells(), session_id@, opened@),
            final(self).shells() == kept_for(
                old(self).shells(),
                session_id@,
                opened@,
            ),
            final(self).states() == old(self).states(),
            final(self).interpreters() == old(self).interpreters(),
    {
        keep_first(&mut self.shells, session_id, opened)
    }

    /// The PowerShell interpreter a session has already.
    pub fn open_interpreter(&self, session_id: &str) -> (out: Option<String>)
        ensures
            match out {
                Some(s) => self.interpreters().dom().contains(session_id@)
                    && self.interpreters()[session_id@] == s@,
                None => !self.interpreters().dom().contains(session_id@),
            },
    {
        get(&self.interpreters, session_id)
    }

    /// The PowerShell interpreter of a session, after one was opened for it.
    pub fn session_powershell(&mut self, session_id: &str, opened: &str) -> (out: String)
        ensures
            out@ == first_kept(old(self).interpreters(), session_id@, opened@),
            final(self).interpreters() == kept_for(
                old(self).interpreters(),
                session_id@,
                opened@,
            ),
            final(self).states() == old(self).states(),
            final(self).shells() == old(self).shells(),
    {
        keep_first(&mut self.interpreters, session_id, opened)
    }

    /// Forget a session's PowerShell interpreter. A command that ran too long left
    /// it killed, and a killed one answers nothing; the next call starts a new one.
    pub fn drop_session_powershell(&mut self, session_id: &str)
        ensures
            final(self).interpreters() == old(self).interpreters().remove(
                session_id@,
            ),
            final(self).states() == old(self).states(),
            final(self).shells() == old(self).shells(),
    {
        let _ = remove(&mut self.interpreters, session_id);
    }

    /// Forget everything that is kept for a session, when it ends.
    pub fn clear_session_shell_state(&mut self, session_id: &str)
        ensures
            final(self).states() == old(self).states().remove(session_id@),
            final(self).shells() == old(self).shells().remove(session_id@),
            final(self).interpreters() == old(self).interpreters().remove(
                session_id@,
            ),
    {
        let _ = remove(&mut self.states, session_id);
        let _ = remove(&mut self.shells, session_id);
        let _ = remove(&mut self.interpreters, session_id);
    }
}

/// A session is answered with the same shell every time, whatever was opened for
/// it later.
pub proof fn a_session_keeps_its_shell(
    table: Map<Seq<char>, Seq<char>>,
    session: Seq<char>,
    opened: Seq<char>,
    later: Seq<char>,
)
    ensures
        first_kept(kept_for(table, session, opened), session, later) == first_kept(
            table,
            session,
            opened,
        ),
        kept_for(kept_for(table, session, opened), session, later) == kept_for(
            table,
            session,
            opened,
        ),
{
}

/// A session that was cleared starts over.
pub proof fn a_cleared_session_starts_over(
    table: Map<Seq<char>, Seq<char>>,
    session: Seq<char>,
    opened: Seq<char>,
)
    ensures
        first_kept(table.remove(session), session, opened) == opened,
{
}

/// Nothing that is done for one session reaches another.
pub proof fn sessions_are_apart(
    table: Map<Seq<char>, Seq<char>>,
    session: Seq<char>,
    opened: Seq<char>,
    other: Seq<char>,
)
    requires
        other != session,
    ensures
        kept_for(table, session, opened).dom().contains(other) == table.dom().contains(other),
        table.remove(session).dom().contains(other) == table.dom().contains(other),
        table.dom().contains(other) ==> kept_for(table, session, opened)[other] == table[other]
            && table.remove(session)[other] == table[other],
{
}

} // verus!
