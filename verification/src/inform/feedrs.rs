//! The standard feeds informant (RSS, ATOM, or JSON feeds): following redirections and turning
//! feed entries into news items.

use vstd::prelude::*;

use super::{InformantError, UrlError};
use crate::clock::{from_unix_timestamp, unix_seconds_in_range, NANOS_PER_SECOND};
use crate::db::news::{opt_str, opt_str_clone, InputNews, InputNewsView};
use crate::net::NetworkError;
use crate::text::{chars_eq, chars_of, push_char};

verus! {

/// Parameters of the standard feeds informant.
#[derive(Debug, Clone, PartialEq, Eq)]
pub struct Parameters {
    /// Feed URL.
    pub feed_url: String,
}

/// How many redirections a fetch follows at most.
pub const REDIRECTION_CHAIN_LIMIT: u8 = 7;

/// An absolute URL as the URL parser understood it.
#[derive(Debug, Clone, PartialEq, Eq)]
pub struct ParsedUrl {
    /// The serialization of the URL.
    pub href: String,
    /// The scheme, without the `:` delimiter.
    pub scheme: String,
    /// Whether the URL has an authority (user, password, host, port).
    pub has_authority: bool,
}

/// The mathematical value of a [`ParsedUrl`].
pub ghost struct ParsedUrlView {
    pub href: Seq<char>,
    pub scheme: Seq<char>,
    pub has_authority: bool,
}

impl View for ParsedUrl {
    type V = ParsedUrlView;

    open spec fn view(&self) -> ParsedUrlView {
        ParsedUrlView { href: self.href@, scheme: self.scheme@, has_authority: self.has_authority }
    }
}

/// The view of a URL parsing outcome.
pub open spec fn parsed_view(p: Result<ParsedUrl, UrlError>) -> Result<ParsedUrlView, UrlError> {
    match p {
        Ok(u) => Ok(u@),
        Err(e) => Err(e),
    }
}

/// What the URL parser makes of `input` as an absolute URL.
pub uninterp spec fn spec_parse_url(input: Seq<char>) -> Result<ParsedUrlView, UrlError>;

/// What the URL parser makes of `input` relative to the absolute URL serialized as `base`.
///
/// The base is carried as its serialization: `url::Url::parse` of a URL's serialization gives
/// that URL back (the `url` crate's serialization round-trips), so joining onto the re-parsed
/// base is joining onto the URL itself.
pub uninterp spec fn spec_join_url(base: Seq<char>, input: Seq<char>) -> Result<ParsedUrlView, UrlError>;

/// Errors of the URL parser, carried through opaquely.
#[verifier::external_type_specification]
#[verifier::external_body]
pub struct ExUrlParseError(url::ParseError);

/// The library's name for a URL parsing error.
///
/// Tells the variants of `url::ParseError` apart, one arm each.
#[verifier::external_body]
fn url_error_of(e: url::ParseError) -> UrlError {
    match e {
        url::ParseError::EmptyHost => UrlError::EmptyHost,
        url::ParseError::IdnaError => UrlError::IdnaError,
        url::ParseError::InvalidPort => UrlError::InvalidPort,
        url::ParseError::InvalidIpv4Address => UrlError::InvalidIpv4Address,
        url::ParseError::InvalidIpv6Address => UrlError::InvalidIpv6Address,
        url::ParseError::InvalidDomainCharacter => UrlError::InvalidDomainCharacter,
        url::ParseError::RelativeUrlWithoutBase => UrlError::RelativeUrlWithoutBase,
        url::ParseError::RelativeUrlWithCannotBeABaseBase => UrlError::RelativeUrlWithCannotBeABaseBase,
        url::ParseError::SetHostOnCannotBeABaseUrl => UrlError::SetHostOnCannotBeABaseUrl,
        url::ParseError::Overflow => UrlError::Overflow,
        _ => UrlError::Other,
    }
}

/// Parses `input` as an absolute URL.
///
/// Calls `url::Url::parse`; the result, converted to the URL's serialization, scheme and
/// authority flag, is named [`spec_parse_url`] of the input.
#[verifier::external_body]
pub(crate) fn parse_url(input: &str) -> (r: Result<ParsedUrl, UrlError>)
    ensures
        parsed_view(r) == spec_parse_url(input@),
{
    match url::Url::parse(input) {
        Ok(u) => Ok(ParsedUrl { href: u.as_str().to_owned(), scheme: u.scheme().to_owned(), has_authority: u.has_authority() }),
        Err(e) => Err(url_error_of(e)),
    }
}

/// Parses `input` relative to the absolute URL serialized as `base`.
///
/// Calls `url::Url::join` on the URL that `url::Url::parse` reads back from `base`; the result,
/// converted as in [`parse_url`], is named [`spec_join_url`] of the base and the input.
#[verifier::external_body]
pub(crate) fn join_url(base: &str, input: &str) -> (r: Result<ParsedUrl, UrlError>)
    ensures
        parsed_view(r) == spec_join_url(base@, input@),
{
    match url::Url::parse(base).and_then(|b| b.join(input)) {
        Ok(u) => Ok(ParsedUrl { href: u.as_str().to_owned(), scheme: u.scheme().to_owned(), has_authority: u.has_authority() }),
        Err(e) => Err(url_error_of(e)),
    }
}

/// Whether a redirection may go from the scheme `from` to the scheme `to`: staying, or
/// upgrading from `http` to `https`.
pub open spec fn scheme_change_allowed(from: Seq<char>, to: Seq<char>) -> bool {
    from == to || (from == "http"@ && to == "https"@)
}

/// Where a redirection from `target` goes when its location parses as `parsed`: an absolute
/// location with an authority (`Ok(Some(..))`, when the scheme change is allowed), a relative
/// location to join with the target (`Ok(None)`), or an error.
pub open spec fn resolve_spec(target: ParsedUrl, parsed: Result<ParsedUrl, UrlError>) -> Result<
    Option<ParsedUrl>,
    InformantError,
> {
    match parsed {
        Ok(u) => if u.has_authority {
            if scheme_change_allowed(target.scheme@, u.scheme@) {
                Ok(Some(u))
            } else {
                Err(InformantError::UnallowedRedirectionSchemeChange { from: target.scheme, to: u.scheme })
            }
        } else {
            Err(InformantError::InvalidHttpRedirectionLocation(u.href))
        },
        Err(UrlError::RelativeUrlWithoutBase) => Ok(None),
        Err(e) => Err(InformantError::UrlParseError(e)),
    }
}

/// Whether the scheme `from` may change to `to` in a redirection.
fn scheme_change_allowed_exec(from: &str, to: &str) -> (r: bool)
    ensures
        r == scheme_change_allowed(from@, to@),
{
    let f = chars_of(from);
    let t = chars_of(to);
    let http = chars_of("http");
    let https = chars_of("https");
    proof {
        reveal_strlit("http");
        reveal_strlit("https");
    }
    chars_eq(&f, &t) || (chars_eq(&f, &http) && chars_eq(&t, &https))
}

/// Where a redirection from `target` goes when its location parses as `parsed`.
pub fn resolve_parsed_location(target: &ParsedUrl, parsed: Result<ParsedUrl, UrlError>) -> (r: Result<
    Option<ParsedUrl>,
    InformantError,
>)
    ensures
        r == resolve_spec(*target, parsed),
{
    match parsed {
        Ok(u) => {
            if u.has_authority {
                if scheme_change_allowed_exec(target.scheme.as_str(), u.scheme.as_str()) {
                    Ok(Some(u))
                } else {
                    Err(InformantError::UnallowedRedirectionSchemeChange { from: target.scheme.clone(), to: u.scheme })
                }
            } else {
                Err(InformantError::InvalidHttpRedirectionLocation(u.href))
            }
        },
        Err(UrlError::RelativeUrlWithoutBase) => Ok(None),
        Err(e) => Err(InformantError::UrlParseError(e)),
    }
}

/// The new target of a redirection from `target` to `location`: the location parsed as an
/// absolute URL, or, when it is relative, joined with the target.
pub fn resolve_redirect_location(target: &ParsedUrl, location: &str) -> (r: Result<ParsedUrl, InformantError>)
    ensures
        exists|p: Result<ParsedUrl, UrlError>|
            #![trigger resolve_spec(*target, p)]
            parsed_view(p) == spec_parse_url(location@) && match resolve_spec(*target, p) {
                Ok(Some(u)) => r == Ok::<ParsedUrl, InformantError>(u),
                Err(e) => r == Err::<ParsedUrl, InformantError>(e),
                Ok(None) => exists|j: Result<ParsedUrl, UrlError>|
                    #![trigger parsed_view(j)]
                    parsed_view(j) == spec_join_url(target.href@, location@) && r == match j {
                        Ok(u) => Ok::<ParsedUrl, InformantError>(u),
                        Err(e) => Err(InformantError::UrlParseError(e)),
                    },
            },
{
    let parsed = parse_url(location);
    let ghost p = parsed;
    let resolved = resolve_parsed_location(target, parsed);
    match resolved {
        Ok(Some(u)) => Ok(u),
        Err(e) => Err(e),
        Ok(None) => {
            let joined = join_url(target.href.as_str(), location);
            let ghost j = joined;
            assert(parsed_view(j) == spec_join_url(target.href@, location@));
            match joined {
                Ok(u) => Ok(u),
                Err(e) => Err(InformantError::UrlParseError(e)),
            }
        },
    }
}

/// Whether an HTTP status code is a success (`2xx`).
pub open spec fn is_success_status(status: u16) -> bool {
    200 <= status <= 299
}

/// Whether an HTTP status code is a redirection the informant follows: permanent ones (301,
/// 308), treated as temporary, and temporary ones (302, 307).
pub open spec fn is_redirect_status(status: u16) -> bool {
    status == 301 || status == 308 || status == 302 || status == 307
}

/// Whether a header value is text: visible ASCII or horizontal tabs.
pub open spec fn is_header_text(bytes: Seq<u8>) -> bool {
    forall|i: int| 0 <= i < bytes.len() ==> (#[trigger] bytes[i] == 9 || 32 <= bytes[i] < 127)
}

/// The text of a header value that is visible ASCII, each byte a character.
pub open spec fn header_chars(bytes: Seq<u8>) -> Seq<char> {
    bytes.map_values(|b: u8| b as char)
}

/// The text of a header value, or `None` when it holds bytes other than visible ASCII and tabs.
pub fn header_text(bytes: &Vec<u8>) -> (r: Option<String>)
    ensures
        match r {
            Some(s) => is_header_text(bytes@) && s@ == header_chars(bytes@),
            None => !is_header_text(bytes@),
        },
{
    let mut s = String::new();
    let mut i: usize = 0;
    while i < bytes.len()
        invariant
            i <= bytes@.len(),
            forall|a: int| 0 <= a < i ==> (#[trigger] bytes@[a] == 9 || 32 <= bytes@[a] < 127),
            s@ == header_chars(bytes@.take(i as int)),
        decreases bytes@.len() - i,
    {
        let b = bytes[i];
        if !(b == 9 || (32 <= b && b < 127)) {
            return None;
        }
        push_char(&mut s, b as char);
        assert(header_chars(bytes@.take(i + 1)) =~= header_chars(bytes@.take(i as int)).push(b as char));
        i = i + 1;
    }
    assert(bytes@.take(bytes@.len() as int) =~= bytes@);
    Some(s)
}

/// What to do with a response while fetching a feed.
#[derive(Debug, Clone, PartialEq, Eq)]
pub enum RedirectAction {
    /// The response is the feed.
    Done,
    /// Fetch again from this target.
    Follow(ParsedUrl),
    /// The fetch fails.
    Fail(InformantError),
}

/// The action for a response with status `status` and location header `location`, after
/// following `redirections` redirections from the feed URL to `target`: success statuses end
/// the fetch, redirections are followed up to [`REDIRECTION_CHAIN_LIMIT`] times to their
/// resolved location, other statuses fail.
pub fn redirect_step(target: &ParsedUrl, redirections: u8, status: u16, location: Option<&Vec<u8>>) -> (r:
    RedirectAction)
    ensures
        redirect_outcome(
            *target,
            redirections,
            status,
            match location {
                Some(l) => Some(l@),
                None => None,
            },
            r,
        ),
{
    if 200 <= status && status <= 299 {
        return RedirectAction::Done;
    }
    if !(status == 301 || status == 308 || status == 302 || status == 307) {
        return RedirectAction::Fail(InformantError::NetworkError(NetworkError::UnsuccessfulHttpRequest(status)));
    }
    if redirections >= REDIRECTION_CHAIN_LIMIT {
        return RedirectAction::Fail(InformantError::HttpRedirectionCountLimitReached);
    }
    match location {
        None => RedirectAction::Fail(InformantError::NoHttpRedirectionLocation),
        Some(l) => {
            if l.len() == 0 {
                return RedirectAction::Fail(InformantError::NoHttpRedirectionLocation);
            }
            match header_text(l) {
                None => RedirectAction::Fail(InformantError::InvalidHeaderValue),
                Some(text) => {
                    let res = resolve_redirect_location(target, text.as_str());
                    assert(resolution_of(*target, header_chars(l@), res));
                    let ghost expected = redirect_of(res);
                    let action = match res {
                        Ok(u) => RedirectAction::Follow(u),
                        Err(e) => RedirectAction::Fail(e),
                    };
                    assert(action == expected);
                    action
                },
            }
        },
    }
}

/// Whether `r` is the action for a response with status `status` and location header
/// `location`, after following `redirections` redirections to `target`.
pub open spec fn redirect_outcome(
    target: ParsedUrl,
    redirections: u8,
    status: u16,
    location: Option<Seq<u8>>,
    r: RedirectAction,
) -> bool {
    &&& is_success_status(status) ==> r == RedirectAction::Done
    &&& !is_success_status(status) && !is_redirect_status(status) ==> r == RedirectAction::Fail(
        InformantError::NetworkError(NetworkError::UnsuccessfulHttpRequest(status)),
    )
    &&& is_redirect_status(status) && redirections >= REDIRECTION_CHAIN_LIMIT ==> r == RedirectAction::Fail(
        InformantError::HttpRedirectionCountLimitReached,
    )
    &&& is_redirect_status(status) && redirections < REDIRECTION_CHAIN_LIMIT ==> match location {
        None => r == RedirectAction::Fail(InformantError::NoHttpRedirectionLocation),
        Some(l) => if l.len() == 0 {
            r == RedirectAction::Fail(InformantError::NoHttpRedirectionLocation)
        } else if !is_header_text(l) {
            r == RedirectAction::Fail(InformantError::InvalidHeaderValue)
        } else {
            exists|res: Result<ParsedUrl, InformantError>|
                #![trigger redirect_of(res)]
                resolution_of(target, header_chars(l), res) && r == redirect_of(res)
        },
    }
}

/// A followed redirection comes from a redirection status, with fewer than
/// [`REDIRECTION_CHAIN_LIMIT`] redirections followed before it.
pub proof fn law_redirections_bounded(
    target: ParsedUrl,
    redirections: u8,
    status: u16,
    location: Option<Seq<u8>>,
    next: ParsedUrl,
)
    requires
        redirect_outcome(target, redirections, status, location, RedirectAction::Follow(next)),
    ensures
        is_redirect_status(status),
        redirections < REDIRECTION_CHAIN_LIMIT,
{
}

/// The action for a resolved redirection.
pub open spec fn redirect_of(res: Result<ParsedUrl, InformantError>) -> RedirectAction {
    match res {
        Ok(u) => RedirectAction::Follow(u),
        Err(e) => RedirectAction::Fail(e),
    }
}

/// Whether `res` is what [`resolve_redirect_location`] gives for `target` and `location`.
pub open spec fn resolution_of(target: ParsedUrl, location: Seq<char>, res: Result<ParsedUrl, InformantError>) -> bool {
    exists|p: Result<ParsedUrl, UrlError>|
        #![trigger resolve_spec(target, p)]
        parsed_view(p) == spec_parse_url(location) && match resolve_spec(target, p) {
            Ok(Some(u)) => res == Ok::<ParsedUrl, InformantError>(u),
            Err(e) => res == Err::<ParsedUrl, InformantError>(e),
            Ok(None) => exists|j: Result<ParsedUrl, UrlError>|
                #![trigger parsed_view(j)]
                parsed_view(j) == spec_join_url(target.href@, location) && res == match j {
                    Ok(u) => Ok::<ParsedUrl, InformantError>(u),
                    Err(e) => Err(InformantError::UrlParseError(e)),
                },
        }
}

/// A redirection to an absolute location never leaves `https` for another scheme, and only
/// ever changes the scheme from `http` to `https`.
pub proof fn law_no_scheme_downgrade(target: ParsedUrl, parsed: Result<ParsedUrl, UrlError>)
    ensures
        resolve_spec(target, parsed) matches Ok(Some(u)) ==> scheme_change_allowed(target.scheme@, u.scheme@),
        target.scheme@ == "https"@ ==> (resolve_spec(target, parsed) matches Ok(Some(u)) ==> u.scheme@ == "https"@),
{
    reveal_strlit("http");
    reveal_strlit("https");
}


/// The view of an optional header value.
pub open spec fn loc_view(location: Option<&Vec<u8>>) -> Option<Seq<u8>> {
    match location {
        Some(l) => Some(l@),
        None => None,
    }
}

/// The state of fetching a feed: the current target and the redirections followed so far.
#[derive(Debug, Clone, PartialEq, Eq)]
pub struct FetchState {
    pub target: ParsedUrl,
    pub redirections: u8,
}

/// The next step of fetching a feed.
#[derive(Debug, Clone, PartialEq, Eq)]
pub enum FetchStep {
    /// The response is the feed.
    Done,
    /// Fetch again from this state.
    Continue(FetchState),
    /// The fetch fails.
    Fail(InformantError),
}

/// The state of a fetch of the feed at `parameters.feed_url`, or the URL's parsing error.
pub fn start_fetch(parameters: &Parameters) -> (r: Result<FetchState, InformantError>)
    ensures
        exists|p: Result<ParsedUrl, UrlError>|
            #![trigger parsed_view(p)]
            parsed_view(p) == spec_parse_url(parameters.feed_url@) && match p {
                Ok(u) => r == Ok::<FetchState, InformantError>(FetchState { target: u, redirections: 0 }),
                Err(e) => r == Err::<FetchState, InformantError>(InformantError::UrlParseError(e)),
            },
{
    let parsed = parse_url(parameters.feed_url.as_str());
    let ghost p = parsed;
    assert(parsed_view(p) == spec_parse_url(parameters.feed_url@));
    match parsed {
        Ok(u) => Ok(FetchState::start(u)),
        Err(e) => Err(InformantError::UrlParseError(e)),
    }
}

impl FetchState {
    /// The state of a fetch that has not been redirected yet.
    pub fn start(target: ParsedUrl) -> (r: FetchState)
        ensures
            r.target == target,
            r.redirections == 0,
    {
        FetchState { target, redirections: 0 }
    }

    /// The step after a response with status `status` and location header `location`: a
    /// followed redirection moves to its target and counts one more redirection.
    pub fn advance(&self, status: u16, location: Option<&Vec<u8>>) -> (r: FetchStep)
        requires
            self.redirections <= REDIRECTION_CHAIN_LIMIT,
        ensures
            match r {
                FetchStep::Done => redirect_outcome(self.target, self.redirections, status, loc_view(location), RedirectAction::Done),
                FetchStep::Continue(next) => {
                    &&& next.redirections == self.redirections + 1
                    &&& next.redirections <= REDIRECTION_CHAIN_LIMIT
                    &&& redirect_outcome(self.target, self.redirections, status, loc_view(location), RedirectAction::Follow(next.target))
                },
                FetchStep::Fail(e) => redirect_outcome(self.target, self.redirections, status, loc_view(location), RedirectAction::Fail(e)),
            },
    {
        match redirect_step(&self.target, self.redirections, status, location) {
            RedirectAction::Done => FetchStep::Done,
            RedirectAction::Follow(u) => {
                proof {
                    law_redirections_bounded(self.target, self.redirections, status, loc_view(location), u);
                }
                FetchStep::Continue(FetchState { target: u, redirections: self.redirections + 1 })
            },
            RedirectAction::Fail(e) => FetchStep::Fail(e),
        }
    }
}

/// A feed entry, as far as the informant reads it.
#[derive(Debug, Clone, PartialEq, Eq)]
pub struct FeedEntry {
    /// The entry's identifier.
    pub id: String,
    /// The target of the entry's first link.
    pub first_link: Option<String>,
    /// The content of the entry's title.
    pub title: Option<String>,
    /// The content of the entry's summary.
    pub summary: Option<String>,
    /// The entry's content, with its body if it has one.
    pub content: Option<Option<String>>,
    /// The entry's publication time, as a Unix timestamp in seconds.
    pub published: Option<i64>,
    /// The entry's update time, as a Unix timestamp in seconds.
    pub updated: Option<i64>,
}

/// The mathematical value of a [`FeedEntry`].
pub ghost struct FeedEntryView {
    pub id: Seq<char>,
    pub first_link: Option<Seq<char>>,
    pub title: Option<Seq<char>>,
    pub summary: Option<Seq<char>>,
    pub content: Option<Option<Seq<char>>>,
    pub published: Option<i64>,
    pub updated: Option<i64>,
}

impl View for FeedEntry {
    type V = FeedEntryView;

    open spec fn view(&self) -> FeedEntryView {
        FeedEntryView {
            id: self.id@,
            first_link: opt_str(self.first_link),
            title: opt_str(self.title),
            summary: opt_str(self.summary),
            content: match self.content {
                Some(c) => Some(opt_str(c)),
                None => None,
            },
            published: self.published,
            updated: self.updated,
        }
    }
}

/// The views of a sequence of entries.
pub open spec fn entry_views(s: Seq<FeedEntry>) -> Seq<FeedEntryView> {
    s.map_values(|e: FeedEntry| e@)
}

/// Whether two entries agree on everything but their identifiers.
pub open spec fn same_but_id(a: FeedEntryView, b: FeedEntryView) -> bool {
    &&& a.first_link == b.first_link
    &&& a.title == b.title
    &&& a.summary == b.summary
    &&& a.content == b.content
    &&& a.published == b.published
    &&& a.updated == b.updated
}

/// What the feed parser (sanitizing contents) makes of `body`: the feed's entries in order, or
/// the parser's error message. An entry's identifier is the one the parser gives it when that
/// one is determined by the body, and empty when the parser draws it at random (see
/// [`parse_feed`]).
pub uninterp spec fn spec_parse_feed(body: Seq<u8>) -> Result<Seq<FeedEntryView>, Seq<char>>;

/// Parses an RSS, ATOM or JSON feed, sanitizing its contents.
///
/// Calls `feed_rs::parser::Parser::parse` on a parser built with `sanitize_content(true)`. The
/// error's message, and the entries converted field by field (timestamps by
/// `chrono::DateTime::timestamp`), are named [`spec_parse_feed`] of the body. The parser keeps an
/// entry's own identifier, derives a missing one from the entry's first link and title, and
/// draws a random one only for an entry with neither identifier nor link; such a random
/// identifier is left unsaid (its name is empty), every other one is stated, and an entry
/// with a link always has a stated identifier.
#[verifier::external_body]
fn parse_feed(body: &[u8]) -> (r: Result<Vec<FeedEntry>, String>)
    ensures
        match r {
            Ok(v) => spec_parse_feed(body@) matches Ok(es) && es.len() == v@.len() && forall|i: int|
                0 <= i < v@.len() ==> {
                    &&& same_but_id(#[trigger] v@[i]@, es[i])
                    &&& es[i].id.len() > 0 ==> v@[i]@.id == es[i].id
                    &&& es[i].first_link is Some ==> es[i].id.len() > 0
                },
            Err(m) => spec_parse_feed(body@) == Err::<Seq<FeedEntryView>, Seq<char>>(m@),
        },
{
    let parser = feed_rs::parser::Builder::new().sanitize_content(true).build();
    let feed = parser.parse(body).map_err(|e| e.to_string())?;
    Ok(feed.entries.into_iter().map(feed_entry_of).collect())
}

/// Entries of parsed feeds, carried through opaquely.
#[verifier::external_type_specification]
#[verifier::external_body]
pub struct ExFeedEntry(feed_rs::model::Entry);

/// The fields of a parsed entry that the informant reads: its identifier, the target of its
/// first link, the contents of its title and summary, its content's body, and its times as
/// `chrono::DateTime::timestamp` gives them; this conversion is part of [`parse_feed`].
#[verifier::external_body]
fn feed_entry_of(e: feed_rs::model::Entry) -> FeedEntry {
    let first_link = e.links.first().map(|l| l.href.clone());
    let (title, summary) = (e.title.map(|t| t.content), e.summary.map(|t| t.content));
    let (published, updated) = (e.published.map(|t| t.timestamp()), e.updated.map(|t| t.timestamp()));
    FeedEntry { id: e.id, first_link, title, summary, content: e.content.map(|c| c.body), published, updated }
}

/// Whether the timestamps of an entry name representable instants.
pub open spec fn entry_times_in_range(e: FeedEntryView) -> bool {
    &&& e.published matches Some(s) ==> unix_seconds_in_range(s as int)
    &&& e.updated matches Some(s) ==> unix_seconds_in_range(s as int)
}

/// The instant of an optional timestamp in seconds.
pub open spec fn opt_seconds_to_time(s: Option<i64>) -> Option<i128> {
    match s {
        Some(x) => Some((x * NANOS_PER_SECOND) as i128),
        None => None,
    }
}

/// The news item of a feed entry: identified by the entry's identifier, at its first link,
/// titled by its title (empty without one), with its summary, its content's body (empty when
/// the content has none), and its times.
pub open spec fn entry_to_news_spec(e: FeedEntryView) -> InputNewsView {
    InputNewsView {
        source_provided_id: Some(e.id),
        uri: e.first_link,
        title: match e.title {
            Some(t) => t,
            None => Seq::empty(),
        },
        summary: e.summary,
        content: match e.content {
            Some(b) => Some(
                match b {
                    Some(x) => x,
                    None => Seq::empty(),
                },
            ),
            None => None,
        },
        published_at: opt_seconds_to_time(e.published),
        updated_at: opt_seconds_to_time(e.updated),
    }
}

/// A feed entry's news item keeps the entry's own data: it is identified by the entry's
/// identifier, addressed by its first link, titled by its title (empty without one), summarized
/// by its summary, carries the body of the entry's content as its content (empty when the
/// content has no body, none without content), and is timed by the entry's times.
pub proof fn law_entry_fields_carried(e: FeedEntryView)
    ensures
        entry_to_news_spec(e).source_provided_id == Some(e.id),
        entry_to_news_spec(e).uri == e.first_link,
        e.title matches Some(t) ==> entry_to_news_spec(e).title == t,
        e.title is None ==> entry_to_news_spec(e).title.len() == 0,
        entry_to_news_spec(e).summary == e.summary,
        e.content matches Some(Some(b)) ==> entry_to_news_spec(e).content == Some(b),
        e.content == Some(None::<Seq<char>>) ==> entry_to_news_spec(e).content == Some(Seq::<char>::empty()),
        e.content is None ==> entry_to_news_spec(e).content is None,
        entry_to_news_spec(e).published_at == opt_seconds_to_time(e.published),
        entry_to_news_spec(e).updated_at == opt_seconds_to_time(e.updated),
{
}

/// Two entries that differ only in their content's body give news items that differ only in
/// their content, each carrying its own entry's body.
pub proof fn law_entry_body_is_the_content(e: FeedEntryView, b1: Seq<char>, b2: Seq<char>)
    ensures
        entry_to_news_spec(FeedEntryView { content: Some(Some(b1)), ..e }).content == Some(b1),
        b1 != b2 ==> entry_to_news_spec(FeedEntryView { content: Some(Some(b1)), ..e }) != entry_to_news_spec(
            FeedEntryView { content: Some(Some(b2)), ..e },
        ),
{
}

/// The instant of an optional timestamp that is in range.
fn opt_time(s: Option<i64>) -> (r: Option<i128>)
    requires
        s matches Some(x) ==> unix_seconds_in_range(x as int),
    ensures
        r == opt_seconds_to_time(s),
{
    match s {
        Some(x) => match from_unix_timestamp(x) {
            Some(t) => Some(t),
            None => None,
        },
        None => None,
    }
}

/// The news item of a feed entry.
pub fn entry_to_news(e: &FeedEntry) -> (r: InputNews)
    requires
        entry_times_in_range(e@),
    ensures
        r@ == entry_to_news_spec(e@),
{
    let title = match &e.title {
        Some(t) => t.clone(),
        None => String::new(),
    };
    let content = match &e.content {
        Some(b) => Some(
            match b {
                Some(x) => x.clone(),
                None => String::new(),
            },
        ),
        None => None,
    };
    let r = InputNews {
        source_provided_id: Some(e.id.clone()),
        uri: opt_str_clone(&e.first_link),
        title,
        summary: opt_str_clone(&e.summary),
        content,
        published_at: opt_time(e.published),
        updated_at: opt_time(e.updated),
    };
    assert(r@.content == entry_to_news_spec(e@).content);
    r
}

/// The news items of feed entries, in order.
pub fn entries_to_news(entries: &Vec<FeedEntry>) -> (r: Vec<InputNews>)
    requires
        forall|i: int| 0 <= i < entries@.len() ==> entry_times_in_range(#[trigger] entries@[i]@),
    ensures
        r@.len() == entries@.len(),
        forall|i: int| 0 <= i < entries@.len() ==> #[trigger] r@[i]@ == entry_to_news_spec(entries@[i]@),
{
    let mut r: Vec<InputNews> = Vec::new();
    let mut i: usize = 0;
    while i < entries.len()
        invariant
            i <= entries@.len(),
            r@.len() == i,
            forall|a: int| 0 <= a < entries@.len() ==> entry_times_in_range(#[trigger] entries@[a]@),
            forall|a: int| 0 <= a < i ==> #[trigger] r@[a]@ == entry_to_news_spec(entries@[a]@),
        decreases entries@.len() - i,
    {
        r.push(entry_to_news(&entries[i]));
        i = i + 1;
    }
    r
}

/// The first timestamp of the entries that names no representable instant, if any.
fn first_out_of_range(entries: &Vec<FeedEntry>) -> (r: Option<i64>)
    ensures
        match r {
            Some(s) => !unix_seconds_in_range(s as int) && exists|i: int|
                0 <= i < entries@.len() && (#[trigger] entries@[i]@.published == Some(s) || entries@[i]@.updated == Some(s)),
            None => forall|i: int| 0 <= i < entries@.len() ==> entry_times_in_range(#[trigger] entries@[i]@),
        },
{
    let mut i: usize = 0;
    while i < entries.len()
        invariant
            i <= entries@.len(),
            forall|a: int| 0 <= a < i ==> entry_times_in_range(#[trigger] entries@[a]@),
        decreases entries@.len() - i,
    {
        let e = &entries[i];
        match e.published {
            Some(s) => if from_unix_timestamp(s).is_none() {
                assert(entries@[i as int]@.published == Some(s));
                return Some(s);
            },
            None => {},
        }
        match e.updated {
            Some(s) => if from_unix_timestamp(s).is_none() {
                assert(entries@[i as int]@.updated == Some(s));
                return Some(s);
            },
            None => {},
        }
        i = i + 1;
    }
    None
}

/// The news items of a parser's outcome: its failure, a timestamp that names no representable
/// instant, or the entries' items in order, each as [`entry_to_news_spec`] makes it.
pub fn feed_news_of(parsed: Result<Vec<FeedEntry>, String>) -> (r: Result<Vec<InputNews>, InformantError>)
    ensures
        match parsed {
            Err(m) => r == Err::<Vec<InputNews>, InformantError>(InformantError::FeedRsParsingError(m)),
            Ok(entries) => {
                if forall|i: int| 0 <= i < entries@.len() ==> entry_times_in_range(#[trigger] entries@[i]@) {
                    r matches Ok(v) && v@.len() == entries@.len() && forall|i: int|
                        0 <= i < entries@.len() ==> #[trigger] v@[i]@ == entry_to_news_spec(entries@[i]@)
                } else {
                    r matches Err(InformantError::TimestampOutOfRange(s)) && !unix_seconds_in_range(s as int)
                        && exists|i: int|
                        0 <= i < entries@.len() && (#[trigger] entries@[i]@.published == Some(s)
                            || entries@[i]@.updated == Some(s))
                }
            },
        },
{
    match parsed {
        Err(m) => Err(InformantError::FeedRsParsingError(m)),
        Ok(entries) => match first_out_of_range(&entries) {
            Some(s) => Err(InformantError::TimestampOutOfRange(s)),
            None => Ok(entries_to_news(&entries)),
        },
    }
}

/// Whether `n` is the news item of the entry `e`, under the entry's identifier when that one is
/// stated (not empty), else under some identifier.
pub open spec fn item_of_entry(n: InputNewsView, e: FeedEntryView) -> bool {
    &&& n.source_provided_id matches Some(id) && n == entry_to_news_spec(FeedEntryView { id, ..e })
    &&& e.id.len() > 0 ==> n.source_provided_id == Some(e.id)
}

/// The news items of a fetched feed: its entries in order, each as [`entry_to_news_spec`]
/// makes it (under the identifier that the parser gave the entry, which is the stated one when
/// the parser did not draw it at random); a parser failure, or a
/// timestamp that names no representable instant, fails.
pub fn parse_feed_news(body: &[u8]) -> (r: Result<Vec<InputNews>, InformantError>)
    ensures
        match spec_parse_feed(body@) {
            Err(m) => r matches Err(InformantError::FeedRsParsingError(s)) && s@ == m,
            Ok(es) => {
                if forall|i: int| 0 <= i < es.len() ==> entry_times_in_range(#[trigger] es[i]) {
                    r matches Ok(v) && v@.len() == es.len() && forall|i: int|
                        0 <= i < es.len() ==> item_of_entry(#[trigger] v@[i]@, es[i])
                } else {
                    r matches Err(InformantError::TimestampOutOfRange(s)) && !unix_seconds_in_range(s as int)
                }
            },
        },
{
    let parsed = parse_feed(body);
    let ghost p = parsed;
    let r = feed_news_of(parsed);
    proof {
        match p {
            Err(m) => {},
            Ok(entries) => {
                let es = spec_parse_feed(body@)->Ok_0;
                assert forall|i: int| 0 <= i < entries@.len() implies entry_times_in_range(#[trigger] entries@[i]@)
                    == entry_times_in_range(es[i]) by {
                    assert(same_but_id(entries@[i]@, es[i]));
                }
                if forall|i: int| 0 <= i < es.len() ==> entry_times_in_range(#[trigger] es[i]) {
                    assert forall|i: int| 0 <= i < entries@.len() implies entry_times_in_range(#[trigger] entries@[i]@) by {
                        assert(entry_times_in_range(es[i]));
                    }
                    let v = r->Ok_0;
                    assert forall|i: int| 0 <= i < es.len() implies item_of_entry(#[trigger] v@[i]@, es[i]) by {
                        assert(same_but_id(entries@[i]@, es[i]));
                        assert(v@[i]@ == entry_to_news_spec(entries@[i]@));
                        assert(FeedEntryView { id: entries@[i]@.id, ..es[i] } == entries@[i]@);
                    }
                } else {
                    let i = choose|i: int| 0 <= i < es.len() && !entry_times_in_range(#[trigger] es[i]);
                    assert(same_but_id(entries@[i]@, es[i]));
                }
            },
        }
    }
    r
}
} // verus!
