use vstd::prelude::*;

use crate::net::NetworkError;

verus! {

/// Why parsing a URL failed.
#[derive(Debug, Clone, Copy, PartialEq, Eq, Structural)]
pub enum UrlError {
    EmptyHost,
    IdnaError,
    InvalidPort,
    InvalidIpv4Address,
    InvalidIpv6Address,
    InvalidDomainCharacter,
    RelativeUrlWithoutBase,
    RelativeUrlWithCannotBeABaseBase,
    SetHostOnCannotBeABaseUrl,
    Overflow,
    /// A failure that this library does not tell apart.
    Other,
}

/// Categories of informant errors, as the storage records them for learning.
#[derive(Debug, Clone, Copy, PartialEq, Eq, Structural)]
pub enum InformantErrorKind {
    Internal,
    Network,
    Parsing,
    Parameters,
}

impl InformantErrorKind {
    /// The code that the storage records for the kind.
    pub open spec fn code_spec(self) -> i8 {
        match self {
            InformantErrorKind::Internal => 0,
            InformantErrorKind::Network => 1,
            InformantErrorKind::Parsing => 2,
            InformantErrorKind::Parameters => 3,
        }
    }

    /// The code that the storage records for the kind.
    pub fn code(&self) -> (r: i8)
        ensures
            r == self.code_spec(),
    {
        match self {
            InformantErrorKind::Internal => 0,
            InformantErrorKind::Network => 1,
            InformantErrorKind::Parsing => 2,
            InformantErrorKind::Parameters => 3,
        }
    }
}

/// Distinct kinds are recorded under distinct codes.
pub proof fn law_error_kind_codes_distinct(a: InformantErrorKind, b: InformantErrorKind)
    ensures
        a.code_spec() == b.code_spec() <==> a == b,
{
}

/// Errors of the informants.
///
/// Errors raised by outside parsers reach the library as their messages.
#[derive(Debug, Clone, PartialEq, Eq)]
#[non_exhaustive]
pub enum InformantError {
    /// No informant is recorded under this identifier.
    UnsupportedInformatIdentifier(i8),
    /// Informant parameters don't match the required structure.
    InvalidInformantParameters(String),
    /// A one-shot channel closed before delivering.
    TokioOneShotError,
    /// The network failed.
    NetworkError(NetworkError),
    /// A URI could not be parsed.
    InvalidUri(String),
    /// A URI contains no host.
    NoTargetUriAuthority,
    /// A URL could not be parsed.
    UrlParseError(UrlError),
    /// More redirections than the informant follows.
    HttpRedirectionCountLimitReached,
    /// A redirection without a location.
    NoHttpRedirectionLocation,
    /// A redirection to an absolute location without authority.
    InvalidHttpRedirectionLocation(String),
    /// A redirection that changes the scheme other than from `http` to `https`.
    UnallowedRedirectionSchemeChange { from: String, to: String },
    /// A header value that is not visible ASCII.
    InvalidHeaderValue,
    /// A body that is not UTF-8.
    InvalidUtf8Str,
    /// A string with an invalid escape.
    UnescapeError(String),
    /// A date-time that could not be parsed.
    DateTimeParsingError,
    /// A time that cannot be represented.
    TimestampOutOfRange(i64),
    /// The feed parser failed.
    FeedRsParsingError(String),
    /// A Telegram web page in a format the scraper does not know.
    TelegramWebUndefiedFormat,
}

/// The kind under which the storage records an error.
pub open spec fn kind_spec(e: InformantError) -> InformantErrorKind {
    match e {
        InformantError::TokioOneShotError => InformantErrorKind::Internal,
        InformantError::NetworkError(_) => InformantErrorKind::Network,
        InformantError::FeedRsParsingError(_) => InformantErrorKind::Parsing,
        InformantError::TelegramWebUndefiedFormat => InformantErrorKind::Parsing,
        InformantError::UnescapeError(_) => InformantErrorKind::Parsing,
        InformantError::InvalidUtf8Str => InformantErrorKind::Parsing,
        InformantError::DateTimeParsingError => InformantErrorKind::Parsing,
        InformantError::TimestampOutOfRange(_) => InformantErrorKind::Parsing,
        InformantError::InvalidHeaderValue => InformantErrorKind::Network,
        InformantError::HttpRedirectionCountLimitReached => InformantErrorKind::Network,
        InformantError::NoHttpRedirectionLocation => InformantErrorKind::Network,
        InformantError::InvalidHttpRedirectionLocation(_) => InformantErrorKind::Network,
        InformantError::UnallowedRedirectionSchemeChange { .. } => InformantErrorKind::Network,
        InformantError::UnsupportedInformatIdentifier(_) => InformantErrorKind::Parameters,
        InformantError::InvalidInformantParameters(_) => InformantErrorKind::Parameters,
        InformantError::InvalidUri(_) => InformantErrorKind::Parameters,
        InformantError::NoTargetUriAuthority => InformantErrorKind::Parameters,
        InformantError::UrlParseError(_) => InformantErrorKind::Parameters,
    }
}

impl InformantError {
    /// The error kind for database storage, used to categorize errors for the learned ranking
    /// engine.
    pub fn kind(&self) -> (r: InformantErrorKind)
        ensures
            r == kind_spec(*self),
    {
        match self {
            InformantError::TokioOneShotError => InformantErrorKind::Internal,
            InformantError::NetworkError(_) => InformantErrorKind::Network,
            InformantError::FeedRsParsingError(_) => InformantErrorKind::Parsing,
            InformantError::TelegramWebUndefiedFormat => InformantErrorKind::Parsing,
            InformantError::UnescapeError(_) => InformantErrorKind::Parsing,
            InformantError::InvalidUtf8Str => InformantErrorKind::Parsing,
            InformantError::DateTimeParsingError => InformantErrorKind::Parsing,
            InformantError::TimestampOutOfRange(_) => InformantErrorKind::Parsing,
            InformantError::InvalidHeaderValue => InformantErrorKind::Network,
            InformantError::HttpRedirectionCountLimitReached => InformantErrorKind::Network,
            InformantError::NoHttpRedirectionLocation => InformantErrorKind::Network,
            InformantError::InvalidHttpRedirectionLocation(_) => InformantErrorKind::Network,
            InformantError::UnallowedRedirectionSchemeChange { .. } => InformantErrorKind::Network,
            InformantError::UnsupportedInformatIdentifier(_) => InformantErrorKind::Parameters,
            InformantError::InvalidInformantParameters(_) => InformantErrorKind::Parameters,
            InformantError::InvalidUri(_) => InformantErrorKind::Parameters,
            InformantError::NoTargetUriAuthority => InformantErrorKind::Parameters,
            InformantError::UrlParseError(_) => InformantErrorKind::Parameters,
        }
    }
}

} // verus!
