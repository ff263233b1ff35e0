//! What the command line shows of a job.

pub mod labels;
pub mod live;
pub mod overview;
pub mod shown;
pub mod summary;
pub mod table;
