//! The time of day, from outside.

use vstd::prelude::*;

verus! {

/// The current time, in seconds since the start of 1970, as `chrono::Local::now().timestamp()`
/// gives it. Nothing is claimed of the number: it is whatever the machine's clock says.
/// chrono stops the program where that clock stands before 1970, or where the machine's
/// time zone cannot be worked out.
#[verifier::external_body]
pub(crate) fn current_timestamp() -> (now: i64) {
    chrono::Local::now().timestamp()
}

} // verus!
