//! The wall clock.

use vstd::prelude::*;

verus! {

/// Milliseconds since the Unix epoch, as `libafl_bolts::current_time` gives them. Nothing is
/// claimed of the number: it is whatever the clock of the machine says.
#[verifier::external_body]
pub(crate) fn now_epoch_ms() -> (r: u64) {
    libafl_bolts::current_time().as_millis() as u64
}

} // verus!
