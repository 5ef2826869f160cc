//! The codes of the Server's API errors.

use vstd::prelude::*;

use crate::error_shape::{code_of, code_with};

verus! {

/// The code an error status gets; 401 is `authentication_required`.
pub fn code_for(status: u16) -> (r: &'static str)
    ensures
        r@ == code_of(status, "authentication_required"@),
{
    code_with(status, "authentication_required")
}

} // verus!
