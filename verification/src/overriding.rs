//! Values that are said to replace others.

use vstd::prelude::*;

verus! {

/// What is said, or else what was there.
pub open spec fn spec_or<T>(said: Option<T>, there: T) -> T {
    match said {
        Some(said) => said,
        None => there,
    }
}

/// Puts what is said in the place of what was there.
pub fn replace_with<T>(there: &mut T, said: Option<T>)
    ensures
        *final(there) == spec_or(said, *old(there)),
{
    match said {
        Some(said) => {
            *there = said;
        },
        None => {},
    }
}

} // verus!
