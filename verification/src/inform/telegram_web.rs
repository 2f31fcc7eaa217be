//! The Telegram channels informant (a web scraper): validating and assembling scraped posts.

use vstd::prelude::*;

use super::InformantError;
use crate::db::news::{InputNews, InputNewsView};
use crate::text::{chars_of, chars_eq};

verus! {

/// Parameters of the Telegram channels informant.
#[derive(Debug, Clone, PartialEq, Eq)]
pub struct Parameters {
    /// Channel identifier.
    pub channel_id: String,
}

/// Where Telegram serves channels on the web.
pub const TELEGRAM_WEB_ENDPOINT: &'static str = "https://t.me";

/// Selector of the posts of a channel page.
pub const POST_SELECTOR: &'static str = ".tgme_widget_message.js-widget_message";

/// Selector of a post's text.
pub const POST_TEXT_CONTENT_SELECTOR: &'static str = "div.tgme_widget_message_text.js-message_text";

/// Selector of a post's time.
pub const POST_TIME_SELECTOR: &'static str = "div.tgme_widget_message_footer.js-message_footer .tgme_widget_message_meta .tgme_widget_message_date time.time";

/// An element directly inside a post's text.
#[derive(Debug, Clone, PartialEq, Eq)]
pub struct ChildElement {
    /// The element's local name.
    pub name: String,
    /// The HTML inside the element.
    pub inner_html: String,
}

/// The text of a post.
#[derive(Debug, Clone, PartialEq, Eq)]
pub struct ScrapedText {
    /// The elements directly inside the text, in order.
    pub children: Vec<ChildElement>,
    /// The HTML inside the text.
    pub inner_html: String,
}

/// A post of a channel page, as far as the informant reads it.
#[derive(Debug, Clone, PartialEq, Eq)]
pub struct ScrapedPost {
    /// The post's `data-post` attribute.
    pub data_post: Option<String>,
    /// The `datetime` attribute of the post's first time element, if it has both.
    pub datetime: Option<String>,
    /// The post's first text.
    pub text: Option<ScrapedText>,
}

/// The mathematical value of a [`ChildElement`].
pub ghost struct ChildElementView {
    pub name: Seq<char>,
    pub inner_html: Seq<char>,
}

/// The mathematical value of a [`ScrapedText`].
pub ghost struct ScrapedTextView {
    pub children: Seq<ChildElementView>,
    pub inner_html: Seq<char>,
}

/// The mathematical value of a [`ScrapedPost`].
pub ghost struct ScrapedPostView {
    pub data_post: Option<Seq<char>>,
    pub datetime: Option<Seq<char>>,
    pub text: Option<ScrapedTextView>,
}

impl View for ChildElement {
    type V = ChildElementView;

    open spec fn view(&self) -> ChildElementView {
        ChildElementView { name: self.name@, inner_html: self.inner_html@ }
    }
}

impl View for ScrapedText {
    type V = ScrapedTextView;

    open spec fn view(&self) -> ScrapedTextView {
        ScrapedTextView { children: self.children@.map_values(|c: ChildElement| c@), inner_html: self.inner_html@ }
    }
}

impl View for ScrapedPost {
    type V = ScrapedPostView;

    open spec fn view(&self) -> ScrapedPostView {
        ScrapedPostView {
            data_post: crate::db::news::opt_str(self.data_post),
            datetime: crate::db::news::opt_str(self.datetime),
            text: match self.text {
                Some(t) => Some(t@),
                None => None,
            },
        }
    }
}

/// The views of a sequence of posts.
pub open spec fn post_views(s: Seq<ScrapedPost>) -> Seq<ScrapedPostView> {
    s.map_values(|p: ScrapedPost| p@)
}

/// The posts that the HTML scraper finds in the fragment `html`, through the library's fixed
/// selectors [`POST_SELECTOR`], [`POST_TIME_SELECTOR`] and [`POST_TEXT_CONTENT_SELECTOR`]
/// (see [`scrape_posts`]).
pub uninterp spec fn spec_scrape_posts(html: Seq<char>) -> Seq<ScrapedPostView>;

/// Reads the posts of a channel page fragment.
///
/// Calls `scraper::Html::parse_fragment` and, for each element that [`POST_SELECTOR`] selects,
/// reads its `data-post` attribute, the `datetime` attribute of the first element that
/// [`POST_TIME_SELECTOR`] selects in it, and the first element that
/// [`POST_TEXT_CONTENT_SELECTOR`] selects in it (its child elements' names and inner HTML and
/// its own inner HTML); the posts so read are named [`spec_scrape_posts`] of the fragment.
#[verifier::external_body]
fn scrape_posts(html: &str) -> (r: Vec<ScrapedPost>)
    ensures
        post_views(r@) == spec_scrape_posts(html@),
{
    let doc = scraper::Html::parse_fragment(html);
    let sel = |s| scraper::Selector::parse(s).unwrap();
    let (post, text, time) = (sel(POST_SELECTOR), sel(POST_TEXT_CONTENT_SELECTOR), sel(POST_TIME_SELECTOR));
    let mut r = Vec::new();
    for p in doc.select(&post) {
        let datetime = p.select(&time).next().and_then(|t| t.attr("datetime")).map(str::to_owned);
        let text = p.select(&text).next().map(|e| scraped_text(&e));
        r.push(ScrapedPost { data_post: p.attr("data-post").map(str::to_owned), datetime, text });
    }
    r
}

/// HTML elements of a parsed document, carried through opaquely.
#[verifier::external_type_specification]
#[verifier::external_body]
pub struct ExElementRef<'a>(scraper::ElementRef<'a>);

/// The child elements' names and inner HTML and the inner HTML of a post's text element, as
/// `scraper::ElementRef::child_elements`, `scraper::node::Element::name` and
/// `scraper::ElementRef::inner_html` give them; this conversion is part of [`scrape_posts`].
#[verifier::external_body]
fn scraped_text(e: &scraper::ElementRef) -> ScrapedText {
    let children = e.child_elements().map(|c| ChildElement { name: c.value().name().to_owned(), inner_html: c.inner_html() });
    ScrapedText { children: children.collect(), inner_html: e.inner_html() }
}

/// The string that the JavaScript-style escapes of `s` stand for, or the error's message.
pub uninterp spec fn spec_unescape(s: Seq<char>) -> Result<Seq<char>, Seq<char>>;

/// Resolves JavaScript-style escapes.
///
/// Calls `unescaper::unescape`; the result, or the error's message, is named [`spec_unescape`]
/// of the input.
#[verifier::external_body]
fn unescape(s: &str) -> (r: Result<String, String>)
    ensures
        match r {
            Ok(u) => spec_unescape(s@) == Ok::<Seq<char>, Seq<char>>(u@),
            Err(m) => spec_unescape(s@) == Err::<Seq<char>, Seq<char>>(m@),
        },
{
    unescaper::unescape(s).map_err(|e| e.to_string())
}

/// The HTML `s` cleaned of untrusted contents.
pub uninterp spec fn spec_clean_html(s: Seq<char>) -> Seq<char>;

/// Cleans HTML of untrusted contents.
///
/// Calls `ammonia::clean`; the result is named [`spec_clean_html`] of the input.
#[verifier::external_body]
fn clean_html(s: &str) -> (r: String)
    ensures
        r@ == spec_clean_html(s@),
{
    ammonia::clean(s)
}

/// The instant (in nanoseconds since the Unix epoch) of an ISO 8601 date-time, or `None` when
/// it does not parse.
pub uninterp spec fn spec_parse_iso8601(s: Seq<char>) -> Option<i128>;

/// Parses an ISO 8601 date-time.
///
/// Calls `time::OffsetDateTime::parse` with `Iso8601::DEFAULT` and returns the instant as
/// `unix_timestamp_nanos`; the result is named [`spec_parse_iso8601`] of the input.
#[verifier::external_body]
fn parse_iso8601(s: &str) -> (r: Option<i128>)
    ensures
        r == spec_parse_iso8601(s@),
{
    let format = time::format_description::well_known::Iso8601::DEFAULT;
    time::OffsetDateTime::parse(s, &format).ok().map(|t| t.unix_timestamp_nanos())
}

/// Whether `c` is a decimal digit.
pub open spec fn is_digit(c: char) -> bool {
    '0' <= c <= '9'
}

/// The number written by the decimal digits `s`.
pub open spec fn digits_value(s: Seq<char>) -> int
    decreases s.len(),
{
    if s.len() == 0 {
        0
    } else {
        digits_value(s.drop_last()) * 10 + (s.last() as int - '0' as int)
    }
}

/// The digits of an unsigned number's text: the text without a leading `+`.
pub open spec fn unsigned_digits(s: Seq<char>) -> Seq<char> {
    if s.len() > 0 && s[0] == '+' {
        s.drop_first()
    } else {
        s
    }
}

/// Whether `s` is the text of a `u32`: an optional `+`, then at least one decimal digit,
/// writing a number no greater than `u32::MAX`.
pub open spec fn is_u32_text(s: Seq<char>) -> bool {
    let d = unsigned_digits(s);
    &&& d.len() > 0
    &&& forall|i: int| 0 <= i < d.len() ==> is_digit(#[trigger] d[i])
    &&& digits_value(d) <= u32::MAX
}

proof fn lemma_digits_prefix(d: Seq<char>, k: int)
    requires
        0 <= k <= d.len(),
        forall|i: int| 0 <= i < d.len() ==> is_digit(#[trigger] d[i]),
    ensures
        digits_value(d.take(k)) <= digits_value(d),
        digits_value(d) >= 0,
    decreases d.len(),
{
    if d.len() > 0 {
        let init = d.drop_last();
        assert forall|i: int| 0 <= i < init.len() implies is_digit(#[trigger] init[i]) by {
            assert(init[i] == d[i]);
        }
        if k < d.len() {
            lemma_digits_prefix(init, k);
            assert(init.take(k) =~= d.take(k));
        } else {
            assert(d.take(k) =~= d);
            lemma_digits_prefix(init, 0);
        }
        assert(is_digit(d.last()));
    } else {
        assert(d.take(k) =~= d);
    }
}

/// Whether `s` is the text of a `u32` (as `u32::from_str` accepts it).
pub fn is_u32_text_exec(s: &Vec<char>) -> (r: bool)
    ensures
        r == is_u32_text(s@),
{
    let start: usize = if s.len() > 0 && s[0] == '+' { 1 } else { 0 };
    let ghost d = unsigned_digits(s@);
    proof {
        if start == 1 {
            assert(d =~= s@.skip(1));
        } else {
            assert(d =~= s@.skip(0));
        }
    }
    if start >= s.len() {
        return false;
    }
    let mut value: u64 = 0;
    let mut i: usize = start;
    while i < s.len()
        invariant
            start <= i <= s@.len(),
            d == s@.skip(start as int),
            d == unsigned_digits(s@),
            forall|a: int| 0 <= a < i - start ==> is_digit(#[trigger] d[a]),
            value == digits_value(d.take(i - start)),
            value <= u32::MAX,
        decreases s@.len() - i,
    {
        let c = s[i];
        assert(d[i - start] == c);
        if !('0' <= c && c <= '9') {
            assert(!is_digit(d[i - start]));
            return false;
        }
        let next = value * 10 + (c as u64 - '0' as u64);
        proof {
            assert(d.take(i - start + 1).drop_last() =~= d.take(i - start));
            assert(d.take(i - start + 1).last() == c);
        }
        if next > 4294967295 {
            proof {
                assert(next == digits_value(d.take(i - start + 1)));
                if forall|a: int| 0 <= a < d.len() ==> is_digit(#[trigger] d[a]) {
                    lemma_digits_prefix(d, i - start + 1);
                }
            }
            return false;
        }
        value = next;
        i = i + 1;
    }
    assert(d.take(d.len() as int) =~= d);
    true
}

/// The index of the first `/` in `s`.
pub open spec fn first_slash(s: Seq<char>) -> Option<int> {
    if exists|i: int| 0 <= i < s.len() && s[i] == '/' {
        Some(choose|i: int| 0 <= i < s.len() && s[i] == '/' && forall|j: int| 0 <= j < i ==> s[j] != '/')
    } else {
        None
    }
}

/// Whether a post identifier is valid for the channel `channel_id`: it has the form
/// `channel/post` (split at the first `/`), where the channel part is the fetched channel and
/// the post part the text of a `u32`.
pub open spec fn valid_post_id(post_id: Seq<char>, channel_id: Seq<char>) -> bool {
    match first_slash(post_id) {
        None => false,
        Some(i) => post_id.take(i) == channel_id && is_u32_text(post_id.skip(i + 1)),
    }
}

/// Whether a post identifier is valid for the channel `channel_id`.
pub fn validate_post_id(post_id: &str, channel_id: &str) -> (r: bool)
    ensures
        r == valid_post_id(post_id@, channel_id@),
{
    let p = chars_of(post_id);
    let c = chars_of(channel_id);
    let mut i: usize = 0;
    while i < p.len() && p[i] != '/'
        invariant
            i <= p@.len(),
            forall|j: int| 0 <= j < i ==> p@[j] != '/',
        decreases p@.len() - i,
    {
        i = i + 1;
    }
    if i == p.len() {
        assert(!(exists|k: int| 0 <= k < p@.len() && p@[k] == '/'));
        return false;
    }
    proof {
        let k = choose|k: int| 0 <= k < p@.len() && p@[k] == '/' && forall|j: int| 0 <= j < k ==> p@[j] != '/';
        assert(k == i);
    }
    let mut head: Vec<char> = Vec::new();
    let mut tail: Vec<char> = Vec::new();
    let mut j: usize = 0;
    while j < p.len()
        invariant
            i < p@.len(),
            j <= p@.len(),
            head@ == p@.take(if j < i { j as int } else { i as int }),
            tail@ == (if j <= i + 1 { Seq::<char>::empty() } else { p@.subrange(i + 1, j as int) }),
        decreases p@.len() - j,
    {
        if j < i {
            head.push(p[j]);
            assert(head@ =~= p@.take(j + 1));
        } else if j > i {
            tail.push(p[j]);
            assert(tail@ =~= p@.subrange(i + 1, j + 1));
        }
        j = j + 1;
    }
    assert(tail@ =~= p@.skip(i + 1));
    chars_eq(&head, &c) && is_u32_text_exec(&tail)
}

/// The concatenated inner HTML of the children before the first line break (`br`).
pub open spec fn title_html_spec(children: Seq<ChildElementView>) -> Seq<char>
    decreases children.len(),
{
    if children.len() == 0 {
        Seq::empty()
    } else if children[0].name == "br"@ {
        Seq::empty()
    } else {
        children[0].inner_html + title_html_spec(children.drop_first())
    }
}

/// The title of a post: the first parts of its text until a line break.
pub fn title_html(children: &Vec<ChildElement>) -> (r: String)
    ensures
        r@ == title_html_spec(children@.map_values(|c: ChildElement| c@)),
{
    let ghost cs = children@.map_values(|c: ChildElement| c@);
    let br = chars_of("br");
    let mut title = String::new();
    assert(cs.skip(0) =~= cs);
    assert(title@ + title_html_spec(cs) =~= title_html_spec(cs));
    let mut i: usize = 0;
    while i < children.len()
        invariant
            i <= children@.len(),
            cs == children@.map_values(|c: ChildElement| c@),
            br@ == "br"@,
            title@ + title_html_spec(cs.skip(i as int)) == title_html_spec(cs),
        decreases children@.len() - i,
    {
        let name = chars_of(children[i].name.as_str());
        assert(cs.skip(i as int)[0] == cs[i as int]);
        if chars_eq(&name, &br) {
            assert(title_html_spec(cs.skip(i as int)) == Seq::<char>::empty());
            assert(title@ + Seq::<char>::empty() =~= title@);
            return title;
        }
        proof {
            assert(cs.skip(i as int).drop_first() =~= cs.skip(i + 1));
            assert(title@ + children[i as int].inner_html@ + title_html_spec(cs.skip(i + 1)) =~= title@ + (
            children[i as int].inner_html@ + title_html_spec(cs.skip(i + 1))));
        }
        title.append(children[i].inner_html.as_str());
        i = i + 1;
    }
    assert(title_html_spec(cs.skip(i as int)) == Seq::<char>::empty());
    assert(title@ + Seq::<char>::empty() =~= title@);
    title
}

/// The web address of a post.
pub fn post_url(post_id: &str) -> (r: String)
    ensures
        r@ == TELEGRAM_WEB_ENDPOINT@ + "/"@ + post_id@,
{
    let mut url = String::from_str(TELEGRAM_WEB_ENDPOINT);
    url.append("/");
    url.append(post_id);
    url
}

/// The page of a channel's latest posts.
pub fn channel_feed_uri(channel_id: &str) -> (r: String)
    ensures
        r@ == TELEGRAM_WEB_ENDPOINT@ + "/s/"@ + channel_id@,
{
    let mut url = String::from_str(TELEGRAM_WEB_ENDPOINT);
    url.append("/s/");
    url.append(channel_id);
    url
}


/// The title HTML of a post's text (empty without text).
pub open spec fn post_title_spec(p: ScrapedPostView) -> Seq<char> {
    match p.text {
        Some(t) => title_html_spec(t.children),
        None => Seq::empty(),
    }
}

/// The news item of a post of the channel `channel_id`, or why the post is refused: it needs a
/// `data-post` identifier that is valid for the channel and a date-time that parses; its title
/// and content are cleaned of untrusted HTML.
pub open spec fn post_news_spec(p: ScrapedPostView, channel_id: Seq<char>) -> Result<InputNewsView, InformantError> {
    match p.data_post {
        None => Err(InformantError::TelegramWebUndefiedFormat),
        Some(id) => if !valid_post_id(id, channel_id) {
            Err(InformantError::TelegramWebUndefiedFormat)
        } else {
            match p.datetime {
                None => Err(InformantError::TelegramWebUndefiedFormat),
                Some(dt) => match spec_parse_iso8601(dt) {
                    None => Err(InformantError::DateTimeParsingError),
                    Some(t) => Ok(
                        InputNewsView {
                            source_provided_id: Some(id),
                            uri: Some(TELEGRAM_WEB_ENDPOINT@ + "/"@ + id),
                            title: spec_clean_html(post_title_spec(p)),
                            summary: None,
                            content: match p.text {
                                Some(x) => Some(spec_clean_html(x.inner_html)),
                                None => None,
                            },
                            published_at: Some(t),
                            updated_at: None,
                        },
                    ),
                },
            }
        },
    }
}

/// The news item of a post of the channel `channel_id`.
pub fn post_to_news(post: &ScrapedPost, channel_id: &str) -> (r: Result<InputNews, InformantError>)
    ensures
        match post_news_spec(post@, channel_id@) {
            Ok(n) => r matches Ok(x) && x@ == n,
            Err(e) => r == Err::<InputNews, InformantError>(e),
        },
{
    let post_id = match &post.data_post {
        Some(id) => id,
        None => {
            return Err(InformantError::TelegramWebUndefiedFormat);
        },
    };
    if !validate_post_id(post_id.as_str(), channel_id) {
        return Err(InformantError::TelegramWebUndefiedFormat);
    }
    let url = post_url(post_id.as_str());
    let datetime = match &post.datetime {
        Some(dt) => dt,
        None => {
            return Err(InformantError::TelegramWebUndefiedFormat);
        },
    };
    let published = match parse_iso8601(datetime.as_str()) {
        Some(t) => t,
        None => {
            return Err(InformantError::DateTimeParsingError);
        },
    };
    let title = match &post.text {
        Some(t) => title_html(&t.children),
        None => String::new(),
    };
    let content = match &post.text {
        Some(t) => Some(clean_html(t.inner_html.as_str())),
        None => None,
    };
    let r = InputNews {
        source_provided_id: Some(post_id.clone()),
        uri: Some(url),
        title: clean_html(title.as_str()),
        summary: None,
        content,
        published_at: Some(published),
        updated_at: None,
    };
    Ok(r)
}

/// Whether `r` is what turning the posts `ps` into news items gives: all items when every
/// post is accepted, else the refusal of the first refused post.
pub open spec fn posts_outcome(ps: Seq<ScrapedPostView>, channel_id: Seq<char>, r: Result<Seq<InputNewsView>, InformantError>) -> bool {
    match r {
        Ok(v) => v.len() == ps.len() && forall|i: int|
            0 <= i < ps.len() ==> #[trigger] post_news_spec(ps[i], channel_id) == Ok::<InputNewsView, InformantError>(v[i]),
        Err(e) => exists|i: int|
            0 <= i < ps.len() && #[trigger] post_news_spec(ps[i], channel_id) == Err::<InputNewsView, InformantError>(e)
                && forall|j: int| 0 <= j < i ==> post_news_spec(ps[j], channel_id) is Ok,
    }
}

/// Whether a news item is a post of the channel `channel_id`: its identifier is valid for the
/// channel, its address is the post's web address, and it carries a publication time but no
/// summary and no update time.
pub open spec fn is_channel_post(n: InputNewsView, channel_id: Seq<char>) -> bool {
    match n.source_provided_id {
        Some(id) => {
            &&& valid_post_id(id, channel_id)
            &&& n.uri == Some(TELEGRAM_WEB_ENDPOINT@ + "/"@ + id)
            &&& n.summary is None
            &&& n.updated_at is None
            &&& n.published_at is Some
        },
        None => false,
    }
}

/// Where `s` holds a `/` at `k`, it holds a first one.
proof fn lemma_first_slash_exists(s: Seq<char>, k: int)
    requires
        0 <= k < s.len(),
        s[k] == '/',
    ensures
        exists|i: int| 0 <= i < s.len() && s[i] == '/' && forall|j: int| 0 <= j < i ==> s[j] != '/',
    decreases k,
{
    if exists|j: int| 0 <= j < k && s[j] == '/' {
        let j = choose|j: int| 0 <= j < k && s[j] == '/';
        lemma_first_slash_exists(s, j);
    }
}

/// A valid identifier is the channel, a `/` and the text of a `u32`.
proof fn lemma_valid_post_id_shape(post_id: Seq<char>, channel_id: Seq<char>)
    requires
        valid_post_id(post_id, channel_id),
    ensures
        exists|n: Seq<char>| is_u32_text(n) && post_id == channel_id + "/"@ + n,
{
    reveal_strlit("/");
    let k = choose|k: int| 0 <= k < post_id.len() && post_id[k] == '/';
    lemma_first_slash_exists(post_id, k);
    let i = first_slash(post_id)->0;
    assert(0 <= i < post_id.len() && post_id[i] == '/');
    let n = post_id.skip(i + 1);
    assert(post_id =~= post_id.take(i) + "/"@ + n);
}

/// Whether a news item's identifier is the channel `channel_id`, a `/` and the text of a
/// `u32` post number, and its address the web address of that identifier.
pub open spec fn is_numbered_post(n: InputNewsView, channel_id: Seq<char>) -> bool {
    exists|number: Seq<char>|
        #[trigger] is_u32_text(number) && n.source_provided_id == Some(channel_id + "/"@ + number)
            && n.uri == Some(TELEGRAM_WEB_ENDPOINT@ + "/"@ + (channel_id + "/"@ + number))
}

/// Every news item of an accepted page is a post of the fetched channel, one per post: its
/// identifier is the channel, a `/` and a `u32`, and its address the post's web address.
pub proof fn law_accepted_posts_belong_to_channel(
    ps: Seq<ScrapedPostView>,
    channel_id: Seq<char>,
    v: Seq<InputNewsView>,
)
    requires
        posts_outcome(ps, channel_id, Ok(v)),
    ensures
        v.len() == ps.len(),
        forall|i: int| 0 <= i < v.len() ==> is_channel_post(#[trigger] v[i], channel_id),
        forall|i: int| 0 <= i < v.len() ==> is_numbered_post(#[trigger] v[i], channel_id),
{
    assert forall|i: int| 0 <= i < v.len() implies is_channel_post(#[trigger] v[i], channel_id) by {
        assert(post_news_spec(ps[i], channel_id) == Ok::<InputNewsView, InformantError>(v[i]));
    }
    assert forall|i: int| 0 <= i < v.len() implies is_numbered_post(#[trigger] v[i], channel_id) by {
        assert(is_channel_post(v[i], channel_id));
        let id = v[i].source_provided_id->0;
        lemma_valid_post_id_shape(id, channel_id);
        let n = choose|n: Seq<char>| is_u32_text(n) && id == channel_id + "/"@ + n;
        assert(v[i].source_provided_id == Some(channel_id + "/"@ + n));
    }
}

/// The news items of the posts, in order, or the refusal of the first refused post.
pub fn posts_to_news(posts: &Vec<ScrapedPost>, channel_id: &str) -> (r: Result<Vec<InputNews>, InformantError>)
    ensures
        posts_outcome(
            post_views(posts@),
            channel_id@,
            match r {
                Ok(v) => Ok(crate::db::news::news_views(v@)),
                Err(e) => Err(e),
            },
        ),
{
    let ghost ps = post_views(posts@);
    let mut items: Vec<InputNews> = Vec::new();
    let mut i: usize = 0;
    while i < posts.len()
        invariant
            i <= posts@.len(),
            ps == post_views(posts@),
            items@.len() == i,
            forall|a: int| 0 <= a < i ==> #[trigger] post_news_spec(ps[a], channel_id@) == Ok::<InputNewsView, InformantError>(items@[a]@),
        decreases posts@.len() - i,
    {
        assert(ps[i as int] == posts@[i as int]@);
        match post_to_news(&posts[i], channel_id) {
            Ok(n) => {
                items.push(n);
            },
            Err(e) => {
                assert forall|j: int| 0 <= j < i implies post_news_spec(ps[j], channel_id@) is Ok by {
                    assert(post_news_spec(ps[j], channel_id@) == Ok::<InputNewsView, InformantError>(items@[j]@));
                }
                return Err(e);
            },
        }
        i = i + 1;
    }
    assert forall|a: int| 0 <= a < ps.len() implies #[trigger] post_news_spec(ps[a], channel_id@) == Ok::<InputNewsView, InformantError>(crate::db::news::news_views(items@)[a]) by {
        assert(crate::db::news::news_views(items@)[a] == items@[a]@);
    }
    Ok(items)
}

/// Parses a fragment of a channel page (with JavaScript-style escapes) into news items.
pub fn parse_channel_page(body: &str, channel_id: &str) -> (r: Result<Vec<InputNews>, InformantError>)
    ensures
        match spec_unescape(body@) {
            Err(m) => r matches Err(InformantError::UnescapeError(s)) && s@ == m,
            Ok(u) => posts_outcome(
                spec_scrape_posts(u),
                channel_id@,
                match r {
                    Ok(v) => Ok(crate::db::news::news_views(v@)),
                    Err(e) => Err(e),
                },
            ),
        },
{
    let html = match unescape(body) {
        Ok(u) => u,
        Err(m) => {
            return Err(InformantError::UnescapeError(m));
        },
    };
    let posts = scrape_posts(html.as_str());
    posts_to_news(&posts, channel_id)
}

/// The text that the UTF-8 bytes `bytes` encode, or `None` when they are not UTF-8.
pub uninterp spec fn spec_utf8_decode(bytes: Seq<u8>) -> Option<Seq<char>>;

/// Decodes UTF-8.
///
/// Calls `std::str::from_utf8`; the result is named [`spec_utf8_decode`] of the bytes.
#[verifier::external_body]
fn utf8_decode(bytes: &[u8]) -> (r: Option<String>)
    ensures
        match r {
            Some(s) => spec_utf8_decode(bytes@) == Some(s@),
            None => spec_utf8_decode(bytes@) is None,
        },
{
    std::str::from_utf8(bytes).ok().map(str::to_owned)
}

/// Parses the fetched body of a channel page into news items; a body that is not UTF-8 fails.
pub fn parse_channel_page_bytes(body: &[u8], channel_id: &str) -> (r: Result<Vec<InputNews>, InformantError>)
    ensures
        match spec_utf8_decode(body@) {
            None => r == Err::<Vec<InputNews>, InformantError>(InformantError::InvalidUtf8Str),
            Some(text) => match spec_unescape(text) {
                Err(m) => r matches Err(InformantError::UnescapeError(s)) && s@ == m,
                Ok(u) => posts_outcome(
                    spec_scrape_posts(u),
                    channel_id@,
                    match r {
                        Ok(v) => Ok(crate::db::news::news_views(v@)),
                        Err(e) => Err(e),
                    },
                ),
            },
        },
{
    match utf8_decode(body) {
        None => Err(InformantError::InvalidUtf8Str),
        Some(text) => parse_channel_page(text.as_str(), channel_id),
    }
}
} // verus!
