//! Reading the plain values of the C interface.
use vstd::prelude::*;

use crate::def::ReturnType;

verus! {

/// Reads a C boolean flag: every non-zero byte is true.
pub fn to_bool(value: u8) -> (r: bool)
    ensures
        r == (value != 0),
{
    value != 0
}

/// Reads the return type code of the C interface: `0` for basic and `1` for
/// extended metadata; any other code is refused with a message.
pub fn map_return_type(value: u32) -> (r: Result<ReturnType, String>)
    ensures
        value == 0 ==> r == Ok::<ReturnType, String>(ReturnType::Base),
        value == 1 ==> r == Ok::<ReturnType, String>(ReturnType::Ext),
        value > 1 ==> (r matches Err(m) && m@ == "Invalid return_type value. Expected 0 or 1."@),
{
    match value {
        0 => Ok(ReturnType::Base),
        1 => Ok(ReturnType::Ext),
        _ => Err("Invalid return_type value. Expected 0 or 1.".to_owned()),
    }
}

/// The text of an error for the C interface: the message, prefixed with the
/// path and `: ` when there is a path.
pub fn error_text(path: &str, err: &str) -> (r: String)
    ensures
        r@ == if path@.len() == 0 {
            err@
        } else {
            path@ + ": "@ + err@
        },
{
    if path.is_empty() {
        return err.to_owned();
    }
    let mut r = path.to_owned();
    r.append(": ");
    r.append(err);
    r
}

} // verus!
