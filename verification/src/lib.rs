//! Core library of the Aleym news aggregation system.
//!
//! The verified part of the library: the scheduling calendar, the planning of news storage,
//! the informants' parsing and redirection rules, and the validation of feedback signals.

pub mod clock;
pub mod db;
pub mod inform;
pub mod ml;
pub mod models;
pub mod net;
pub mod repositories;
pub mod scheduler;
pub mod services;
pub mod text;

use vstd::prelude::*;
use vstd::std_specs::convert::FromSpecImpl;

verus! {

/// Errors of the library.
#[derive(Debug, Clone, PartialEq, Eq)]
#[non_exhaustive]
pub enum Error {
    /// Storage error occurred.
    StorageError(db::StorageError),
    /// Network error occurred.
    NetworkError(net::NetworkError),
    /// Informant error occurred.
    InformantError(inform::InformantError),
    /// Scheduler error occurred.
    SchedulerError(ml::SchedulerError),
}

impl From<db::StorageError> for Error {
    fn from(e: db::StorageError) -> (r: Error) {
        Error::StorageError(e)
    }
}

impl FromSpecImpl<db::StorageError> for Error {
    open spec fn obeys_from_spec() -> bool {
        true
    }

    open spec fn from_spec(e: db::StorageError) -> Error {
        Error::StorageError(e)
    }
}

impl From<net::NetworkError> for Error {
    fn from(e: net::NetworkError) -> (r: Error) {
        Error::NetworkError(e)
    }
}

impl FromSpecImpl<net::NetworkError> for Error {
    open spec fn obeys_from_spec() -> bool {
        true
    }

    open spec fn from_spec(e: net::NetworkError) -> Error {
        Error::NetworkError(e)
    }
}

impl From<inform::InformantError> for Error {
    fn from(e: inform::InformantError) -> (r: Error) {
        Error::InformantError(e)
    }
}

impl FromSpecImpl<inform::InformantError> for Error {
    open spec fn obeys_from_spec() -> bool {
        true
    }

    open spec fn from_spec(e: inform::InformantError) -> Error {
        Error::InformantError(e)
    }
}

impl From<ml::SchedulerError> for Error {
    fn from(e: ml::SchedulerError) -> (r: Error) {
        Error::SchedulerError(e)
    }
}

impl FromSpecImpl<ml::SchedulerError> for Error {
    open spec fn obeys_from_spec() -> bool {
        true
    }

    open spec fn from_spec(e: ml::SchedulerError) -> Error {
        Error::SchedulerError(e)
    }
}

impl From<net::NetworkError> for inform::InformantError {
    fn from(e: net::NetworkError) -> (r: inform::InformantError) {
        inform::InformantError::NetworkError(e)
    }
}

impl FromSpecImpl<net::NetworkError> for inform::InformantError {
    open spec fn obeys_from_spec() -> bool {
        true
    }

    open spec fn from_spec(e: net::NetworkError) -> inform::InformantError {
        inform::InformantError::NetworkError(e)
    }
}

} // verus!
