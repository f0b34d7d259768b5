//! Hosting: greeting guests and keeping the waitlist.

use vstd::prelude::*;

verus! {

/// Put the party on the waitlist.  Nothing is recorded yet, so there is
/// nothing to state about the result.
pub fn add_to_waitlist() {
}

} // verus!
