//! The common shape of the tool's commands: each one runs to completion and
//! reports success or a typed error.

use vstd::prelude::*;

use crate::error::ZatsuError;

verus! {

pub trait Command {
    fn execute(&self) -> Result<(), ZatsuError>;
}

} // verus!
