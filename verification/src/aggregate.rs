//! The end of a job: its results put together in its record.

use vstd::prelude::*;

use crate::state::job::{summed_up, JobRecord};
use crate::time::Clock;

verus! {

/// Puts the results that a job has so far together, and notes when it ended,
/// where that is not noted yet. The job's error is left as it is.
pub fn aggregate_into_record(record: &mut JobRecord, at: &Clock)
    ensures
        final(record)@ == summed_up(old(record)@, *at),
{
    record.sum_up(at);
}

} // verus!
