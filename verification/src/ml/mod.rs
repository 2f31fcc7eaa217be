//! Learning from feedback signals: the fetch scheduler's calendar.

pub mod error;
pub mod scheduler;

pub use error::SchedulerError;
