//! The Linux accessibility backend.
//!
//! Not yet implemented. AT-SPI2 exposes the tree over D-Bus, and a real backend
//! belongs here. Every operation answers `NotSupported`, which the tool reports
//! as a plain "not on this platform" rather than as an empty desktop. An operation
//! on a handle asks the store first: one that it does not hold is named, as on the
//! other platforms.
use vstd::prelude::*;
use crate::computer_script::ax::handles::HandleStore;
use crate::computer_script::ax::{AxError, AxFault};

verus! {

pub struct LinuxBackend;

impl LinuxBackend {
    /// What every operation answers.
    pub fn unsupported<T>() -> (r: Result<T, AxError>)
        ensures
            r matches Err(e) && e@ == AxFault::NotSupported(
                "accessibility on Linux is not implemented yet"@,
            ),
    {
        Err(AxError::NotSupported("accessibility on Linux is not implemented yet".to_string()))
    }

    /// What every operation on a handle answers.
    pub fn on_handle<T, R>(handles: &HandleStore<T>, handle: &str) -> (r: Result<R, AxError>)
        ensures
            r matches Err(e) && e@ == (if handles.element(handle@) is Some {
                AxFault::NotSupported("accessibility on Linux is not implemented yet"@)
            } else {
                AxFault::UnknownHandle(handle@)
            }),
    {
        match handles.with(handle, |_element: &T| {  }) {
            Ok(_) => LinuxBackend::unsupported(),
            Err(e) => Err(e),
        }
    }
}

} // verus!
