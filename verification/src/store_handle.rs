//! What goes into the event store with an event.
use vstd::prelude::*;

verus! {

/// The ticket that an event is filed under: its own, or that of the writer.
pub fn routed_ticket(own: Option<&str>, writer: &str) -> (s: String)
    ensures
        s@ == match own {
            Some(t) => t@,
            None => writer@,
        },
{
    match own {
        Some(t) => t.to_owned(),
        None => writer.to_owned(),
    }
}

/// The milliseconds since the epoch, or none for a clock that is before it.
/// Only the lower 64 bits count.
pub fn unix_millis(since_epoch: Option<u128>) -> (ms: i64)
    ensures
        ms == match since_epoch {
            Some(n) => n as i64,
            None => 0,
        },
{
    match since_epoch {
        Some(n) => #[verifier::truncate]
        (n as i64),
        None => 0,
    }
}

} // verus!
