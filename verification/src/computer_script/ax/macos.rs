//! What the statuses of the macOS accessibility framework mean.
use vstd::prelude::*;
use crate::computer_script::ax::{AxError, AxFault};
use crate::text::{signed, signed_number};

verus! {

pub struct MacBackend;

pub const K_AX_ERROR_SUCCESS: i32 = 0;

pub const K_AX_ERROR_API_DISABLED: i32 = -25211;

pub const K_AX_ERROR_NOT_IMPLEMENTED: i32 = -25208;

pub const K_AX_ERROR_NO_VALUE: i32 = -25212;

pub const K_AX_ERROR_CANNOT_COMPLETE: i32 = -25204;

/// The deepest a tree walk goes, whatever a caller asks for.
///
/// A desktop's tree runs to thousands of nodes, and the script pays for every
/// one over the bridge. A caller that wants a single control names a shallow
/// depth; this only caps a runaway.
pub const MAX_DEPTH: usize = 12;

/// What a status means; none where it means success.
pub open spec fn status_fault(status: i32) -> Option<AxFault> {
    if status == K_AX_ERROR_SUCCESS {
        None
    } else if status == K_AX_ERROR_API_DISABLED {
        Some(AxFault::PermissionDenied("the accessibility API is disabled for this process"@))
    } else if status == K_AX_ERROR_NOT_IMPLEMENTED {
        Some(AxFault::Failed("the element does not implement that attribute"@))
    } else if status == K_AX_ERROR_CANNOT_COMPLETE {
        Some(AxFault::Failed("the application did not answer in time"@))
    } else {
        Some(AxFault::Failed("AXError "@ + signed(status as int)))
    }
}

/// Map an `AXError` onto the module's error, keeping permission apart.
pub fn translate_status(status: i32) -> (r: Result<(), AxError>)
    ensures
        match r {
            Ok(_) => status_fault(status) is None,
            Err(e) => status_fault(status) == Some(e@),
        },
{
    if status == K_AX_ERROR_SUCCESS {
        Ok(())
    } else if status == K_AX_ERROR_API_DISABLED {
        Err(
            AxError::PermissionDenied(
                "the accessibility API is disabled for this process".to_string(),
            ),
        )
    } else if status == K_AX_ERROR_NOT_IMPLEMENTED {
        Err(AxError::Failed("the element does not implement that attribute".to_string()))
    } else if status == K_AX_ERROR_CANNOT_COMPLETE {
        Err(AxError::Failed("the application did not answer in time".to_string()))
    } else {
        let mut e = "AXError ".to_string();
        let n = signed_number(status as i64);
        e.push_str(&n);
        Err(AxError::Failed(e))
    }
}

/// How deep a tree walk goes.
pub fn capped_depth(depth: usize) -> (r: usize)
    ensures
        r <= MAX_DEPTH,
        r == depth || (r == MAX_DEPTH && depth > MAX_DEPTH),
{
    if depth > MAX_DEPTH {
        MAX_DEPTH
    } else {
        depth
    }
}

/// The position of the first text from `from` on that is not empty.
pub open spec fn first_present_from(all: Seq<Seq<char>>, from: int) -> Seq<char>
    decreases all.len() - from,
{
    if from < 0 || from >= all.len() {
        seq![]
    } else if all[from].len() > 0 {
        all[from]
    } else {
        first_present_from(all, from + 1)
    }
}

/// The first of the attributes' answers that is a non-empty string.
pub fn first_present(all: &Vec<String>) -> (out: String)
    ensures
        out@ == first_present_from(crate::text::views(all@), 0),
{
    let ghost model = crate::text::views(all@);
    let mut i: usize = 0;
    while i < all.len()
        invariant
            i <= all@.len(),
            model == crate::text::views(all@),
            first_present_from(model, 0) == first_present_from(model, i as int),
        decreases all.len() - i,
    {
        assert(model[i as int] == all@[i as int]@);
        if !all[i].as_str().is_empty() {
            return all[i].clone();
        }
        i += 1;
    }
    String::new()
}

/// The first text that is not empty is taken.
pub proof fn the_first_text_present_is_taken(all: Seq<Seq<char>>, from: int, k: int)
    requires
        0 <= from <= k < all.len(),
        all[k].len() > 0,
        forall|j: int| from <= j < k ==> (#[trigger] all[j]).len() == 0,
    ensures
        first_present_from(all, from) == all[k],
    decreases k - from,
{
    if from < k {
        assert(all[from].len() == 0);
        the_first_text_present_is_taken(all, from + 1, k);
    }
}

/// Only success is no fault, and only a disabled interface is one of permission; any
/// other status is told.
pub proof fn only_success_is_no_fault(status: i32)
    ensures
        status_fault(status) is None <==> status == 0,
        status_fault(status) is Some && status_fault(status)->0 is PermissionDenied <==> status
            == -25211,
        status != 0 && status != -25211 ==> status_fault(status) is Some && status_fault(status)->0
            is Failed,
        status != 0 && status != -25211 && status != -25208 && status != -25204 ==> status_fault(
            status,
        ) == Some(AxFault::Failed("AXError "@ + signed(status as int))),
{
}

} // verus!
