//! Which worker works on which job, and when a job starts.

pub mod fetch_job;
pub mod lost;
pub mod ready;
pub mod release;
pub mod staleness;
