//! The guard that keeps filtering from making things worse.
use vstd::prelude::*;
use crate::output_filter::{estimate_tokens, tokens};
use crate::text::byte_len;

verus! {

/// The filtered text, or the raw one where the filtered one counts more tokens.
pub open spec fn no_worse(raw: Seq<char>, filtered: Seq<char>) -> Seq<char> {
    if tokens(byte_len(filtered)) > tokens(byte_len(raw)) {
        raw
    } else {
        filtered
    }
}

/// The filtered text, or the raw one where filtering would have grown it.
pub fn never_worse<'a>(raw: &'a str, filtered: &'a str) -> (out: &'a str)
    ensures
        out@ == no_worse(raw@, filtered@),
{
    if estimate_tokens(filtered) > estimate_tokens(raw) {
        raw
    } else {
        filtered
    }
}

/// The guard never lets the count grow, and passes on what does not make it grow.
pub proof fn the_guard_lets_nothing_grow(raw: Seq<char>, filtered: Seq<char>)
    ensures
        tokens(byte_len(no_worse(raw, filtered))) <= tokens(byte_len(raw)),
        tokens(byte_len(filtered)) <= tokens(byte_len(raw)) ==> no_worse(raw, filtered) == filtered,
        tokens(byte_len(filtered)) > tokens(byte_len(raw)) ==> no_worse(raw, filtered) == raw,
{
}

} // verus!
