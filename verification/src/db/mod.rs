//! Storage of sources, news and feedback signals: the decisions that the database layer
//! carries out.

pub mod error;
pub mod history;
pub mod news;
pub mod query;
pub mod signals;

pub use error::StorageError;


use vstd::prelude::*;

verus! {

/// Order of news listings.
#[derive(Debug, Clone, Copy, PartialEq, Eq, Structural)]
pub enum SortOrder {
    Ascending,
    Descending,
}

/// Notifications from the storage to the fetch scheduler.
#[derive(Debug, Clone, Copy, PartialEq, Eq, Structural)]
pub enum ScheduleNotify {
    /// The source with this identifier got enabled.
    SourceEnabled(u128),
    /// The source with this identifier got disabled.
    SourceDisabled(u128),
}


/// The URL of the SQLite database at the absolute path `absolute_path` (created when missing),
/// or of a temporary in-memory database when there is no path.
pub fn database_url(absolute_path: Option<&str>) -> (r: String)
    ensures
        match absolute_path {
            Some(p) => r@ == "sqlite://"@ + p@ + "?mode=rwc"@,
            None => r@ == "sqlite::memory:"@,
        },
{
    match absolute_path {
        Some(p) => {
            let mut url = String::from_str("sqlite://");
            url.append(p);
            url.append("?mode=rwc");
            url
        },
        None => String::from_str("sqlite::memory:"),
    }
}
} // verus!
