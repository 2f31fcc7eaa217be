//! Repositories of informants and news items.

use vstd::prelude::*;

verus! {

/// The database-backed repository of informants.
#[derive(Debug, Clone, Copy, PartialEq, Eq, Structural)]
pub struct InformantRepositoryImpl {}

/// The database-backed repository of news items.
#[derive(Debug, Clone, Copy, PartialEq, Eq, Structural)]
pub struct NewsItemRepositoryImpl {}

} // verus!
