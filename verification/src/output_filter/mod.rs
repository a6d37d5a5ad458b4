//! Command-output filtering.
//!
//! Compresses a command's output before it reaches the model's context. A
//! command-aware pipeline of declared stages (see `toml_filter`) shrinks noisy
//! output while preserving the parts that matter; a few tools whose output
//! needs stateful parsing have a filter of their own (see `native`).
//!
//! Filtering can only ever help or do nothing: the `never_worse` guard reverts
//! to the raw output when filtering would grow it, and a command with no
//! matching filter passes through untouched.
use vstd::prelude::*;
use crate::pattern::{any_matches, regex_error, regex_replaced, Expression, ExpressionSet};
use crate::text::{byte_len, byte_len_append, chars_of, size, string_of};
use crate::output_filter::guard::never_worse;
use crate::output_filter::toml_filter::{
    apply_filter, command_matches_filter, find_filter_in, CompiledFilter,
};

pub mod guard;
pub mod native;
pub mod tee;
pub mod toml_filter;

verus! {

/// An ANSI escape code for colours and styles.
pub const ANSI_CODE: &'static str = "\x1b\\[[0-9;]*[a-zA-Z]";

/// `text` without its ANSI escape codes.
pub open spec fn plain(text: Seq<char>) -> Seq<char> {
    if regex_error(ANSI_CODE@) is None {
        regex_replaced(ANSI_CODE@, text, ""@)
    } else {
        text
    }
}

/// The compiled form of [`ANSI_CODE`].
pub(crate) fn ansi_pattern() -> (r: Option<Expression>)
    ensures
        match r {
            Some(p) => p@ == ANSI_CODE@ && regex_error(ANSI_CODE@) is None,
            None => regex_error(ANSI_CODE@) is Some,
        },
{
    match Expression::compile(ANSI_CODE) {
        Ok(p) => Some(p),
        Err(_) => None,
    }
}

/// Strips the escape codes that `ansi` matches.
pub(crate) fn strip_with(ansi: &Option<Expression>, text: &str) -> (out: String)
    requires
        match ansi {
            Some(p) => p@ == ANSI_CODE@ && regex_error(ANSI_CODE@) is None,
            None => regex_error(ANSI_CODE@) is Some,
        },
    ensures
        out@ == plain(text@),
{
    match ansi {
        Some(p) => p.replace_all(text, ""),
        None => text.to_string(),
    }
}

/// Strip ANSI escape codes (colors, styles) from a string.
pub fn strip_ansi(text: &str) -> (out: String)
    ensures
        out@ == plain(text@),
{
    strip_with(&ansi_pattern(), text)
}

/// `s` cut to `max_len` characters, the last three of them an ellipsis where
/// something was cut.
pub open spec fn truncated(s: Seq<char>, max_len: nat) -> Seq<char> {
    if s.len() <= max_len {
        s
    } else if max_len < 3 {
        "..."@
    } else {
        s.take(max_len - 3) + "..."@
    }
}

/// Truncate a string to `max_len` chars, appending "..." when cut.
pub fn truncate(s: &str, max_len: usize) -> (out: String)
    ensures
        out@ == truncated(s@, max_len as nat),
{
    let chars = chars_of(s);
    if chars.len() <= max_len {
        s.to_string()
    } else if max_len < 3 {
        "...".to_string()
    } else {
        let mut out = string_of(&chars, 0, max_len - 3);
        out.push_str("...");
        out
    }
}

/// A truncated text has at most `max_len` characters, or the three of the
/// ellipsis where `max_len` has no room for them.
pub proof fn truncated_is_short(s: Seq<char>, max_len: nat)
    ensures
        truncated(s, max_len).len() <= max_len || truncated(s, max_len) == "..."@,
{
    reveal_strlit("...");
}

/// Truncating what was truncated changes nothing.
pub proof fn truncated_twice(s: Seq<char>, max_len: nat)
    ensures
        truncated(truncated(s, max_len), max_len) == truncated(s, max_len),
{
    reveal_strlit("...");
}

/// The token estimate for a text of `bytes` bytes: a quarter of them, rounded up.
pub open spec fn tokens(bytes: nat) -> nat {
    (bytes + 3) / 4
}

/// Estimate a token count as `bytes / 4`, rounded up. Ratios are reliable,
/// absolute counts approximate.
pub fn estimate_tokens(text: &str) -> (n: usize)
    ensures
        n == tokens(byte_len(text@)),
{
    let bytes: usize = size(text);
    if bytes % 4 == 0 {
        bytes / 4
    } else {
        bytes / 4 + 1
    }
}

/// A longer text never counts fewer tokens.
pub proof fn tokens_grow(a: Seq<char>, b: Seq<char>)
    ensures
        tokens(byte_len(a)) <= tokens(byte_len(a + b)),
{
    byte_len_append(a, b);
}

/// The expressions of a pre-check.
pub open spec fn checked_by(set: Option<ExpressionSet>) -> Seq<Seq<char>> {
    match set {
        Some(set) => set@,
        None => seq![],
    }
}

/// What [`filter_command_output`] gives back, with a pre-check by the expressions of
/// `set`.
pub open spec fn filtered(
    set: Seq<Seq<char>>,
    filters: Seq<CompiledFilter>,
    command: Seq<char>,
    raw: Seq<char>,
) -> Seq<char> {
    if !any_matches(set, command) {
        raw
    } else {
        match toml_filter::first_matching(filters, command) {
            None => raw,
            Some(i) => guard::no_worse(raw, toml_filter::filtered_text(filters[i]@, raw)),
        }
    }
}

/// Filter a command's raw output using the given filters, whose commands `set`
/// tells from others at less cost.
///
/// Returns the raw output unchanged when no filter matches the command or
/// filtering would produce more tokens than the raw output.
pub fn filter_command_output(
    set: &Option<ExpressionSet>,
    filters: &Vec<CompiledFilter>,
    command: &str,
    raw: &str,
) -> (out: String)
    ensures
        out@ == filtered(checked_by(*set), filters@, command@, raw@),
{
    if !command_matches_filter(set, command) {
        return raw.to_string();
    }
    match find_filter_in(command, filters) {
        None => raw.to_string(),
        Some(filter) => {
            let shorter = apply_filter(filter, raw);
            never_worse(raw, &shorter).to_string()
        },
    }
}

/// Filtering can only help: whatever the filters do, the output never counts more
/// tokens than the raw text, and it is the raw text wherever the pre-check does not
/// match the command.
pub proof fn filtering_never_grows(
    set: Seq<Seq<char>>,
    filters: Seq<CompiledFilter>,
    command: Seq<char>,
    raw: Seq<char>,
)
    ensures
        tokens(byte_len(filtered(set, filters, command, raw))) <= tokens(byte_len(raw)),
        !any_matches(set, command) ==> filtered(set, filters, command, raw) == raw,
{
}

/// A command that no filter claims passes through untouched.
pub proof fn unclaimed_passes_through(
    set: Seq<Seq<char>>,
    filters: Seq<CompiledFilter>,
    command: Seq<char>,
    raw: Seq<char>,
)
    requires
        forall|i: int|
            0 <= i < filters.len() ==> !crate::pattern::regex_matches(
                (#[trigger] filters[i])@.match_command,
                command,
            ),
    ensures
        filtered(set, filters, command, raw) == raw,
{
    toml_filter::none_matching(filters, command);
}

/// A text that is cut keeps its first characters, and has as many as it may, the last
/// three of them dots; one that is short enough is left alone.
pub proof fn a_cut_keeps_the_beginning(s: Seq<char>, max_len: nat)
    ensures
        s.len() <= max_len ==> truncated(s, max_len) == s,
        3 <= max_len < s.len() ==> truncated(s, max_len).len() == max_len,
        3 <= max_len < s.len() ==> truncated(s, max_len).take(max_len - 3) == s.take(max_len - 3),
        3 <= max_len < s.len() ==> truncated(s, max_len).skip(max_len - 3) == seq!['.', '.', '.'],
        max_len < 3 && max_len < s.len() ==> truncated(s, max_len) == seq!['.', '.', '.'],
{
    reveal_strlit("...");
    assert("..."@ =~= seq!['.', '.', '.']);
    if 3 <= max_len < s.len() {
        assert(truncated(s, max_len).take(max_len - 3) =~= s.take(max_len - 3));
        assert(truncated(s, max_len).skip(max_len - 3) =~= "..."@);
    }
}

/// An estimate is the least number of tokens that, at four bytes each, hold the text.
pub proof fn an_estimate_holds_the_text(bytes: nat)
    ensures
        4 * tokens(bytes) >= bytes,
        bytes > 0 ==> 4 * (tokens(bytes) - 1) < bytes,
        bytes == 0 ==> tokens(bytes) == 0,
{
}

/// The first filter whose expression matches the command works on the output, and none
/// of the others does; what it leaves is shown where it counts no more tokens.
pub proof fn the_first_filter_works(
    set: Seq<Seq<char>>,
    filters: Seq<CompiledFilter>,
    command: Seq<char>,
    raw: Seq<char>,
    k: int,
)
    requires
        any_matches(set, command),
        0 <= k < filters.len(),
        crate::pattern::regex_matches(filters[k]@.match_command, command),
        forall|i: int|
            0 <= i < k ==> !crate::pattern::regex_matches(
                (#[trigger] filters[i])@.match_command,
                command,
            ),
    ensures
        ({
            let shorter = toml_filter::filtered_text(filters[k]@, raw);
            filtered(set, filters, command, raw) == (if tokens(byte_len(shorter)) <= tokens(
                byte_len(raw),
            ) {
                shorter
            } else {
                raw
            })
        }),
{
    toml_filter::the_first_match_is_found(filters, command, k);
}

} // verus!
