//! Repository initialization: the command that creates the store's layout
//! with an empty index under a chosen hash-scheme version.

use vstd::prelude::*;

verus! {

pub struct InitCommand {
    pub version: i32,
}

impl InitCommand {
    pub fn new(version: i32) -> (r: InitCommand)
        ensures
            r.version == version,
    {
        InitCommand { version }
    }
}

} // verus!
