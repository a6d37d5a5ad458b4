//! Shell-style file patterns.
//!
//! The `glob` crate does the compiling and the matching. What it answers is a
//! function of the pattern's text, of the text it is applied to, and of the
//! character that separates the parts of a path on the machine. That character
//! makes no difference wherever neither text holds a backslash.
use vstd::prelude::*;
use crate::text::has_char;

verus! {

/// A compiled pattern of the `glob` crate.
#[verifier::external_type_specification]
#[verifier::external_body]
pub struct ExGlobPattern(glob::Pattern);

/// The error `glob::Pattern::new` reports for a pattern, or none where it compiles,
/// on a machine with the separator.
pub uninterp spec fn glob_error(source: Seq<char>, separator: char) -> Option<Seq<char>>;

/// Whether `glob::Pattern::matches` finds that a pattern matches a text, on a machine
/// with the separator.
pub uninterp spec fn glob_matches(source: Seq<char>, text: Seq<char>, separator: char) -> bool;

/// Whether `glob::Pattern::matches_with` finds that a pattern matches a text, with
/// a separator matched by nothing but itself, on a machine with the separator.
pub uninterp spec fn glob_matches_path(
    source: Seq<char>,
    text: Seq<char>,
    separator: char,
) -> bool;

/// Whether a character separates the parts of a path on some machine.
pub open spec fn separates(c: char) -> bool {
    c == '/' || c == '\\'
}

/// Whether a text means the same on every system.
pub open spec fn portable(s: Seq<char>) -> bool {
    !s.contains('\\')
}

/// A pattern that compiled. Its view is the pattern's text.
///
/// The fields are private and `Glob::compile` is the one place that fills them,
/// so the compiled pattern is always that of the text beside it.
#[derive(Debug)]
pub struct Glob {
    source: String,
    pattern: glob::Pattern,
}

impl View for Glob {
    type V = Seq<char>;

    closed spec fn view(&self) -> Seq<char> {
        self.source@
    }
}

/// Whether compiling a pattern came to this: a pattern where there is no error, the
/// error where there is one.
pub open spec fn compiled_to(r: Result<Glob, String>, error: Option<Seq<char>>) -> bool {
    match r {
        Ok(_) => error is None,
        Err(e) => error == Some(e@),
    }
}

/// Whether compiling a pattern came to what it comes to on some machine.
pub open spec fn compiled_here(r: Result<Glob, String>, source: Seq<char>) -> bool {
    exists|separator: char|
        separates(separator) && compiled_to(r, #[trigger] glob_error(source, separator))
}

/// Whether a pattern's answer on a text is that of some machine.
pub open spec fn matched_here(r: bool, source: Seq<char>, text: Seq<char>) -> bool {
    exists|separator: char|
        separates(separator) && r == #[trigger] glob_matches(source, text, separator)
}

/// Whether a pattern's answer on a path is that of some machine.
pub open spec fn path_matched_here(r: bool, source: Seq<char>, path: Seq<char>) -> bool {
    exists|separator: char|
        separates(separator) && r == #[trigger] glob_matches_path(source, path, separator)
}

impl Glob {
    /// `glob::Pattern::new`: compiles a pattern, or reports why it is none. The
    /// report is the error's display text. It follows the separator of the machine,
    /// which is left open; a pattern without a backslash is read as with a slash.
    #[verifier::external_body]
    pub(crate) fn compile(source: &str) -> (r: Result<Glob, String>)
        ensures
            r matches Ok(g) ==> g@ == source@,
            compiled_here(r, source@),
            portable(source@) ==> compiled_to(r, glob_error(source@, '/')),
    {
        match glob::Pattern::new(source) {
            Ok(pattern) => Ok(Glob { source: source.to_string(), pattern }),
            Err(error) => Err(error.to_string()),
        }
    }

    /// `glob::Pattern::matches`: whether the pattern matches the whole of `text`. It
    /// follows the separator of the machine, which is left open; where neither text
    /// holds a backslash, the answer is that with a slash.
    #[verifier::external_body]
    pub(crate) fn matches(&self, text: &str) -> (r: bool)
        ensures
            matched_here(r, self@, text@),
            portable(self@) && portable(text@) ==> r == glob_matches(self@, text@, '/'),
    {
        self.pattern.matches(text)
    }

    /// `glob::Pattern::matches_with`, with `require_literal_separator` set and the
    /// other options as `glob::MatchOptions::new` has them: whether the pattern
    /// matches the whole of `text`, where no wildcard but `**` reaches across a
    /// separator. It follows the separator of the machine, which is left open; where
    /// neither text holds a backslash, the answer is that with a slash.
    #[verifier::external_body]
    pub(crate) fn matches_path(&self, text: &str) -> (r: bool)
        ensures
            path_matched_here(r, self@, text@),
            portable(self@) && portable(text@) ==> r == glob_matches_path(self@, text@, '/'),
    {
        let options = glob::MatchOptions {
            require_literal_separator: true,
            ..glob::MatchOptions::new()
        };
        self.pattern.matches_with(text, options)
    }
}

/// Whether a text means the same on every system.
pub fn is_portable(s: &str) -> (r: bool)
    ensures
        r == portable(s@),
{
    !has_char(s, '\\')
}

} // verus!
