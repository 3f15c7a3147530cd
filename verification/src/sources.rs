//! The decisions of the snapshot sources.  The file reading, channels and
//! background tasks live with the caller; what is decided here is when a
//! source considers its input fresh.

use vstd::prelude::*;

verus! {

/// Whether a file source should read the file: on the first poll always,
/// never while the file is missing, and otherwise exactly when the
/// modification time has advanced.
pub fn file_poll_should_read(last_modified: Option<u64>, current: Option<u64>) -> (r: bool)
    ensures
        last_modified is None ==> r,
        current is None && last_modified is Some ==> !r,
        last_modified is Some && current is Some ==> r == (current->Some_0
            > last_modified->Some_0),
{
    match (last_modified, current) {
        (None, _) => true,
        (Some(_), None) => false,
        (Some(l), Some(c)) => c > l,
    }
}

/// Whether a watch-style source should surface a value: once for the
/// initial value so the viewer has something to render, and then exactly
/// when the value changed since the last poll.
pub fn channel_poll_should_yield(initial_returned: bool, changed: bool) -> (r: bool)
    ensures
        !initial_returned ==> r,
        initial_returned ==> r == changed,
{
    !initial_returned || changed
}

} // verus!
