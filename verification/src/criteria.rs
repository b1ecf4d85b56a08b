//! The syntax of the JSON pointers that deterministic verification criteria
//! address a candidate with. Numeric ranges and the matching of values are
//! left to the host.
use vstd::prelude::*;
use crate::error::{invalid, Error, Result};
use vstd::string::StringSliceAdditionalSpecFns;

verus! {

/// A JSON pointer: empty, or starting with '/', and each '~' escapes '0' or '1'.
pub open spec fn pointer_valid(b: Seq<u8>) -> bool {
    &&& b.len() == 0 || b[0] == 0x2Fu8
    &&& forall|i: int| 0 <= i < b.len() && #[trigger] b[i] == 0x7Eu8 ==> i + 1 < b.len() && (b[i + 1] == 0x30u8 || b[i + 1] == 0x31u8)
}

/// Check a criterion's pointer.
pub fn validate_pointer(pointer: &str) -> (r: Result<()>)
    ensures
        r is Ok <==> pointer_valid(pointer.spec_bytes()),
        r is Err ==> (r matches Err(Error::Invalid(_))),
{
    let b = pointer.as_bytes();
    let n = b.len();
    if n > 0 && b[0] != 0x2Fu8 {
        return Err(invalid("verification requires a JSON pointer"));
    }
    let mut i: usize = 0;
    while i < n
        invariant
            b@ == pointer.spec_bytes(),
            n == b@.len(),
            i <= n,
            b@.len() == 0 || b@[0] == 0x2Fu8,
            forall|k: int| 0 <= k < i && #[trigger] b@[k] == 0x7Eu8 ==> k + 1 < n && (b@[k + 1] == 0x30u8 || b@[k + 1] == 0x31u8),
        decreases n - i,
    {
        if b[i] == 0x7Eu8 && !(i + 1 < n && (b[i + 1] == 0x30u8 || b[i + 1] == 0x31u8)) {
            return Err(invalid("invalid JSON pointer escape"));
        }
        i = i + 1;
    }
    Ok(())
}

} // verus!
