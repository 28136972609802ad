use vstd::prelude::*;

use crate::error::RcuError;

verus! {

/// What a removal reports, from whether the lookup found the key and, if it
/// did, the code that the store's unlink returned (zero on success).
///
/// The unlinked entry goes to reclamation exactly when this is `Ok`: an
/// entry that the store failed to unlink stays in place and is not freed.
pub fn delete_outcome(found: bool, code: i32) -> (r: Result<(), RcuError>)
    ensures
        !found ==> r == Err::<(), RcuError>(RcuError::NotFound),
        found && code == 0 ==> r == Ok::<(), RcuError>(()),
        found && code != 0 ==> r == Err::<(), RcuError>(RcuError::DeleteError(code)),
{
    if !found {
        Err(RcuError::NotFound)
    } else if code != 0 {
        Err(RcuError::DeleteError(code))
    } else {
        Ok(())
    }
}

} // verus!
