//! lifemaint: track and complete recurring home and life maintenance tasks.
//!
//! The library holds the logic of the `lm` tool: civil dates, recurrence
//! schedules (relative and calendar-fixed), the status engine that folds the
//! append-only event log over the task definitions, the data-file formats,
//! data-directory resolution, and the service operations behind each command.
//! Reading and writing files, the environment, the clock and git are left to
//! the `lm` binary, which hands the values it reads to this library.

pub mod date;
pub mod text;
pub mod error;
pub mod schema;
pub mod schedule;
pub mod model;
pub mod status;
pub mod config;
pub mod store;
pub mod cli;
pub mod service;
pub mod report;

pub use date::{date, Date};
pub use error::Error;
pub use model::{Completion, Event, Punt, Task, Vendor};
pub use report::{Report, ReportKind};
pub use schedule::{Fixed, Interval, Schedule, SpanUnit};
pub use service::Service;
pub use status::{compute_status, Bucket, TaskStatus};
pub use store::DataDir;

use vstd::prelude::*;

verus! {

/// The crate version.
pub fn version() -> (res: &'static str)
    ensures
        res@ == "0.1.0"@,
{
    "0.1.0"
}

} // verus!
