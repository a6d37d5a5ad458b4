//! Random bytes, as the system gives them.
use vstd::prelude::*;

verus! {

/// `getrandom::getrandom` on a buffer of `n` bytes: either it fills the whole
/// buffer, or it gives an error, whose display text is handed on. Which bytes come
/// is left open.
#[verifier::external_body]
pub(crate) fn random_bytes(n: usize) -> (r: Result<Vec<u8>, String>)
    ensures
        r matches Ok(bytes) ==> bytes@.len() == n,
{
    let mut bytes = vec![0u8; n];
    getrandom::getrandom(&mut bytes).map_err(|error| error.to_string())?;
    Ok(bytes)
}

/// What is said where the system has no random bytes to give.
pub open spec fn no_source(cause: Seq<char>) -> Seq<char> {
    "no random source: "@ + cause
}

/// What is said where the system has no random bytes to give.
pub fn without_source(cause: &str) -> (out: String)
    ensures
        out@ == no_source(cause@),
{
    let mut out = "no random source: ".to_string();
    out.push_str(cause);
    out
}

} // verus!
