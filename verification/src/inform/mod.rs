//! Informants: fetching and parsing news from sources.

pub mod error;
pub mod feedrs;
pub mod telegram_web;

pub use error::{InformantError, InformantErrorKind, UrlError};

use vstd::prelude::*;
use vstd::std_specs::convert::{FromSpecImpl, TryFromSpecImpl};

verus! {

/// Informants that sources can be fetched with.
#[derive(Debug, Clone, Copy, PartialEq, Eq, Structural)]
pub enum Type {
    /// RSS, ATOM, or JSON standard feeds.
    FeedRs,
}

impl Type {
    /// The identifier that the storage records for the informant.
    pub open spec fn id_spec(self) -> i8 {
        match self {
            Type::FeedRs => 1,
        }
    }

    /// The identifier that the storage records for the informant.
    pub fn id(&self) -> (r: i8)
        ensures
            r == self.id_spec(),
    {
        match self {
            Type::FeedRs => 1,
        }
    }

    /// The informant recorded under `value`.
    pub fn try_from_id(value: i8) -> (r: Result<Type, InformantError>)
        ensures
            match r {
                Ok(t) => t.id_spec() == value,
                Err(e) => e == InformantError::UnsupportedInformatIdentifier(value) && value != 1,
            },
    {
        match value {
            1 => Ok(Type::FeedRs),
            _ => Err(InformantError::UnsupportedInformatIdentifier(value)),
        }
    }

    /// The informant that takes `parameters`.
    pub fn from_parameters(parameters: &Parameters) -> (r: Type)
        ensures
            r == parameters_type(*parameters),
    {
        match parameters {
            Parameters::FeedRs(_) => Type::FeedRs,
        }
    }
}

/// Informant parameters.
#[derive(Debug, Clone, PartialEq, Eq)]
pub enum Parameters {
    /// RSS, ATOM, or JSON standard feed.
    FeedRs(feedrs::Parameters),
}

/// The informant that takes `p`.
pub open spec fn parameters_type(p: Parameters) -> Type {
    match p {
        Parameters::FeedRs(_) => Type::FeedRs,
    }
}

/// Recording an informant and reading it back gives the same informant.
pub proof fn law_informant_id_round_trip(t: Type)
    ensures
        t.id_spec() == 1,
        forall|u: Type| u.id_spec() == t.id_spec() ==> u == t,
{
}


/// The informant recorded under an identifier, or `UnsupportedInformatIdentifier`.
pub open spec fn type_from_id_spec(value: i8) -> Result<Type, InformantError> {
    if value == 1 {
        Ok(Type::FeedRs)
    } else {
        Err(InformantError::UnsupportedInformatIdentifier(value))
    }
}

impl TryFrom<i8> for Type {
    type Error = InformantError;

    fn try_from(value: i8) -> (r: Result<Type, InformantError>) {
        Type::try_from_id(value)
    }
}

impl TryFromSpecImpl<i8> for Type {
    open spec fn obeys_try_from_spec() -> bool {
        true
    }

    open spec fn try_from_spec(value: i8) -> Result<Type, InformantError> {
        type_from_id_spec(value)
    }
}

impl<'a> From<&'a Parameters> for Type {
    fn from(p: &'a Parameters) -> (r: Type) {
        Type::from_parameters(p)
    }
}

impl<'a> FromSpecImpl<&'a Parameters> for Type {
    open spec fn obeys_from_spec() -> bool {
        true
    }

    open spec fn from_spec(p: &'a Parameters) -> Type {
        parameters_type(*p)
    }
}

impl From<InformantErrorKind> for i8 {
    fn from(k: InformantErrorKind) -> (r: i8) {
        k.code()
    }
}

impl FromSpecImpl<InformantErrorKind> for i8 {
    open spec fn obeys_from_spec() -> bool {
        true
    }

    open spec fn from_spec(k: InformantErrorKind) -> i8 {
        k.code_spec()
    }
}
} // verus!
