//! The process-wide toggle between parallel and single-threaded scan mode.
//! The flag is plain state owned by the server loop and threaded through
//! requests; it selects an execution strategy and never changes results.

use vstd::prelude::*;

verus! {

pub struct ThreadsFlag {
    pub multi_threaded: bool,
}

impl ThreadsFlag {
    /// The server starts in multi-threaded mode.
    pub fn new() -> (r: ThreadsFlag)
        ensures
            r.multi_threaded,
    {
        ThreadsFlag { multi_threaded: true }
    }
}

pub fn is_multi_threaded(flag: &ThreadsFlag) -> (r: bool)
    ensures
        r == flag.multi_threaded,
{
    flag.multi_threaded
}

pub fn set_multi_threaded(flag: &mut ThreadsFlag, multi_threaded: bool)
    ensures
        final(flag).multi_threaded == multi_threaded,
{
    flag.multi_threaded = multi_threaded;
}

} // verus!
