//! The codes of the Agent's errors.

use vstd::prelude::*;

use crate::error_shape::{code_of, code_with};

verus! {

/// The code an error status gets; 401 is `unauthorized`.
pub fn code_for(status: u16) -> (r: &'static str)
    ensures
        r@ == code_of(status, "unauthorized"@),
{
    code_with(status, "unauthorized")
}

} // verus!
