//! Taking over a workflow file that has changed.
use vstd::prelude::*;

verus! {

/// How long a file must be quiet before it is read again, in milliseconds.
pub const DEFAULT_DEBOUNCE_WINDOW_MILLIS: u64 = 200;

/// What is in force after a reload, and what was wrong with it. A faulty file
/// leaves in force what was.
pub fn apply_reload<P, E>(current: P, loaded: Result<P, E>) -> (r: (P, Option<E>))
    ensures
        r == match loaded {
            Ok(next) => (next, None::<E>),
            Err(e) => (current, Some(e)),
        },
{
    match loaded {
        Ok(next) => (next, None),
        Err(e) => (current, Some(e)),
    }
}

} // verus!
