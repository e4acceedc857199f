//! The wall clock, read in whole seconds since the Unix epoch.
use vstd::prelude::*;

verus! {

/// Reads the system clock: `SystemTime::now()` measured from `UNIX_EPOCH`, in
/// whole seconds, or `None` when the clock reads earlier than the epoch
/// (`duration_since` fails). The reading depends on the machine and the
/// moment, so the contract promises nothing of its value.
#[verifier::external_body]
pub(crate) fn unix_time_secs() -> (now: Option<u64>) {
    match std::time::SystemTime::now().duration_since(std::time::UNIX_EPOCH) {
        Ok(d) => Some(d.as_secs()),
        Err(_) => None,
    }
}

} // verus!
