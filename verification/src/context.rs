//! What a parse or an evaluation knows of its surroundings.

use vstd::prelude::*;

verus! {

/// The file that is being worked on, and how failures are to be reported.
///
/// With `debug` set a reporter is asked to abort with a backtrace; without
/// it, to print the diagnostic and leave with status 1.
#[derive(Debug)]
pub struct Ctx {
    pub filepath: String,
    pub debug: bool,
}

impl Ctx {
    /// A context for the file at `filepath`.
    pub fn new(filepath: String, debug: bool) -> (out: Ctx)
        ensures
            out.filepath == filepath,
            out.debug == debug,
    {
        Ctx { filepath, debug }
    }
}

} // verus!
