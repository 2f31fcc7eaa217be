use aleym_core::inform::feedrs::{
    entry_to_news, feed_news_of, header_text, parse_feed_news, redirect_step, resolve_parsed_location,
    resolve_redirect_location, start_fetch, FeedEntry, FetchState, FetchStep, ParsedUrl, Parameters as FeedParameters,
    RedirectAction, REDIRECTION_CHAIN_LIMIT,
};
use aleym_core::inform::telegram_web::{
    channel_feed_uri, parse_channel_page, parse_channel_page_bytes, post_to_news, post_url, posts_to_news, title_html,
    validate_post_id, ChildElement, ScrapedPost, ScrapedText,
};
use aleym_core::inform::{InformantError, InformantErrorKind, Parameters, Type, UrlError};
use aleym_core::net::NetworkError;

const NANOS: i128 = 1_000_000_000;

const EXAMPLE_RSS: &str = r#"<?xml version="1.0"?>
<rss version="2.0">
  <channel>
    <title>NASA Breaking News</title>
    <link>http://www.nasa.gov/</link>
    <description>A RSS news feed containing the latest NASA press releases.</description>
    <item>
      <title>Louisiana Students to Hear from NASA Astronauts Aboard Space Station</title>
      <link>http://www.nasa.gov/press-release/louisiana-students-to-hear-from-nasa-astronauts-aboard-space-station</link>
      <description>As part of the state's first Earth-to-space call, students from Louisiana will have an opportunity soon to hear from NASA astronauts aboard the International Space Station.</description>
      <pubDate>Fri, 21 Jul 2023 09:04:00 -0400</pubDate>
      <guid>http://www.nasa.gov/press-release/louisiana-students-to-hear-from-nasa-astronauts-aboard-space-station</guid>
    </item>
    <item>
      <title>Second</title>
      <link>http://www.nasa.gov/second</link>
      <description>Second item.</description>
      <pubDate>Thu, 20 Jul 2023 09:04:00 -0400</pubDate>
      <guid>http://www.nasa.gov/second</guid>
    </item>
    <item>
      <title>NASA Plans Coverage of Roscosmos Spacewalk Outside Space Station</title>
      <link>http://liftoff.msfc.nasa.gov/news/2003/news-laundry.asp</link>
      <description>Compared to earlier spacecraft, the International Space Station has many luxuries, but laundry facilities are not one of them.  Instead, astronauts have other options.</description>
      <pubDate>Mon, 26 Jun 2023 12:45:00 -0400</pubDate>
      <guid>http://liftoff.msfc.nasa.gov/2003/05/20.html#item570</guid>
    </item>
  </channel>
</rss>"#;

#[test]
fn parsing_rss_inline_feed() {
    let news = parse_feed_news(EXAMPLE_RSS.as_bytes()).unwrap();

    assert_eq!(news.len(), 3);

    let first = news.first().unwrap();
    let last = news.last().unwrap();

    assert_eq!(&first.title, "Louisiana Students to Hear from NASA Astronauts Aboard Space Station");
    assert_eq!(
        first.uri,
        Some("http://www.nasa.gov/press-release/louisiana-students-to-hear-from-nasa-astronauts-aboard-space-station".to_owned())
    );
    assert_eq!(
        first.summary,
        Some("As part of the state's first Earth-to-space call, students from Louisiana will have an opportunity soon to hear from NASA astronauts aboard the International Space Station.".to_owned())
    );
    assert_eq!(first.published_at, Some(1_689_944_640 * NANOS));
    assert_eq!(
        first.source_provided_id,
        Some("http://www.nasa.gov/press-release/louisiana-students-to-hear-from-nasa-astronauts-aboard-space-station".to_owned())
    );

    assert_eq!(&last.title, "NASA Plans Coverage of Roscosmos Spacewalk Outside Space Station");
    assert_eq!(last.uri, Some("http://liftoff.msfc.nasa.gov/news/2003/news-laundry.asp".to_owned()));
    assert_eq!(
        last.summary,
        Some("Compared to earlier spacecraft, the International Space Station has many luxuries, but laundry facilities are not one of them.  Instead, astronauts have other options.".to_owned())
    );
    assert_eq!(last.published_at, Some(1_687_797_900 * NANOS));
    assert_eq!(last.source_provided_id, Some("http://liftoff.msfc.nasa.gov/2003/05/20.html#item570".to_owned()));
}

#[test]
fn unparsable_feed_is_refused() {
    match parse_feed_news(b"this is not a feed") {
        Err(InformantError::FeedRsParsingError(m)) => assert!(!m.is_empty()),
        other => panic!("unexpected {:?}", other),
    }
}

#[test]
fn entry_fields_become_news_fields() {
    let e = FeedEntry {
        id: "id-1".to_owned(),
        first_link: Some("https://example.org/1".to_owned()),
        title: None,
        summary: Some("sum".to_owned()),
        content: Some(None),
        published: Some(10),
        updated: None,
    };
    let n = entry_to_news(&e);
    assert_eq!(n.source_provided_id, Some("id-1".to_owned()));
    assert_eq!(n.uri, Some("https://example.org/1".to_owned()));
    assert_eq!(n.title, "");
    assert_eq!(n.summary, Some("sum".to_owned()));
    assert_eq!(n.content, Some(String::new()));
    assert_eq!(n.published_at, Some(10 * NANOS));
    assert_eq!(n.updated_at, None);
}

#[test]
fn parser_outcomes_become_news_or_errors() {
    assert_eq!(feed_news_of(Err("boom".to_owned())), Err(InformantError::FeedRsParsingError("boom".to_owned())));
    let entry = |published: Option<i64>| FeedEntry {
        id: "e".to_owned(),
        first_link: None,
        title: Some("t".to_owned()),
        summary: None,
        content: None,
        published,
        updated: None,
    };
    let news = feed_news_of(Ok(vec![entry(Some(0)), entry(None)])).unwrap();
    assert_eq!(news.len(), 2);
    assert_eq!(news[0].published_at, Some(0));
    assert_eq!(news[1].published_at, None);
    assert_eq!(news[0].title, "t");
    assert_eq!(
        feed_news_of(Ok(vec![entry(Some(1)), entry(Some(i64::MAX))])),
        Err(InformantError::TimestampOutOfRange(i64::MAX))
    );
}

#[test]
fn feed_entries_without_identifier_get_one() {
    let feed = r#"<?xml version="1.0"?><rss version="2.0"><channel><title>c</title>
        <item><title>linked</title><link>https://example.org/a</link></item>
        <item><title>bare</title></item></channel></rss>"#;
    let news = parse_feed_news(feed.as_bytes()).unwrap();
    assert_eq!(news.len(), 2);
    assert!(news.iter().all(|n| n.source_provided_id.as_ref().is_some_and(|id| !id.is_empty())));
    assert_eq!(news[0].uri, Some("https://example.org/a".to_owned()));
    assert_eq!(news[1].uri, None);
}

#[test]
fn feed_identifiers_of_linked_entries_are_stable() {
    let feed = r#"<?xml version="1.0"?><rss version="2.0"><channel><title>c</title>
        <item><title>linked</title><link>https://example.org/a</link></item>
        <item><title>own</title><guid>urn:own:1</guid></item></channel></rss>"#;
    let first = parse_feed_news(feed.as_bytes()).unwrap();
    let again = parse_feed_news(feed.as_bytes()).unwrap();
    assert_eq!(first[0].source_provided_id, again[0].source_provided_id);
    assert_eq!(first[1].source_provided_id, Some("urn:own:1".to_owned()));
}

fn url(href: &str, scheme: &str) -> ParsedUrl {
    ParsedUrl { href: href.to_owned(), scheme: scheme.to_owned(), has_authority: true }
}

#[test]
fn url_parsing_and_joining() {
    let feed = |u: &str| FeedParameters { feed_url: u.to_owned() };
    let state = start_fetch(&feed("https://example.org/a/b?c=d")).unwrap();
    assert_eq!(state.target, url("https://example.org/a/b?c=d", "https"));
    assert_eq!(start_fetch(&feed("/relative")), Err(InformantError::UrlParseError(UrlError::RelativeUrlWithoutBase)));
    assert_eq!(start_fetch(&feed("http://")), Err(InformantError::UrlParseError(UrlError::EmptyHost)));
    let target = url("https://example.org/a/b", "https");
    assert_eq!(resolve_redirect_location(&target, "../c").unwrap().href, "https://example.org/c");
}

#[test]
fn redirect_resolution() {
    let target = url("http://example.org/feed", "http");
    assert_eq!(
        resolve_redirect_location(&target, "https://example.org/new"),
        Ok(url("https://example.org/new", "https"))
    );
    assert_eq!(resolve_redirect_location(&target, "/moved"), Ok(url("http://example.org/moved", "http")));
    let secure = url("https://example.org/feed", "https");
    assert_eq!(
        resolve_redirect_location(&secure, "http://example.org/feed"),
        Err(InformantError::UnallowedRedirectionSchemeChange { from: "https".to_owned(), to: "http".to_owned() })
    );
    assert_eq!(
        resolve_redirect_location(&secure, "mailto:someone@example.org"),
        Err(InformantError::InvalidHttpRedirectionLocation("mailto:someone@example.org".to_owned()))
    );
    assert_eq!(
        resolve_parsed_location(&secure, Err(UrlError::InvalidPort)),
        Err(InformantError::UrlParseError(UrlError::InvalidPort))
    );
    assert_eq!(resolve_parsed_location(&secure, Err(UrlError::RelativeUrlWithoutBase)), Ok(None));
}

#[test]
fn header_values_must_be_visible_ascii() {
    assert_eq!(header_text(&b"/a\tb".to_vec()), Some("/a\tb".to_owned()));
    assert_eq!(header_text(&vec![b'a', 0x80]), None);
    assert_eq!(header_text(&vec![b'a', b'\n']), None);
}

#[test]
fn redirect_steps() {
    let target = url("http://example.org/feed", "http");
    let loc = b"https://example.org/other".to_vec();
    assert_eq!(redirect_step(&target, 0, 200, None), RedirectAction::Done);
    assert_eq!(
        redirect_step(&target, 0, 404, None),
        RedirectAction::Fail(InformantError::NetworkError(NetworkError::UnsuccessfulHttpRequest(404)))
    );
    assert_eq!(redirect_step(&target, 0, 301, Some(&loc)), RedirectAction::Follow(url("https://example.org/other", "https")));
    assert_eq!(
        redirect_step(&target, REDIRECTION_CHAIN_LIMIT, 302, Some(&loc)),
        RedirectAction::Fail(InformantError::HttpRedirectionCountLimitReached)
    );
    assert_eq!(redirect_step(&target, 0, 307, None), RedirectAction::Fail(InformantError::NoHttpRedirectionLocation));
    assert_eq!(
        redirect_step(&target, 0, 308, Some(&Vec::new())),
        RedirectAction::Fail(InformantError::NoHttpRedirectionLocation)
    );
    assert_eq!(
        redirect_step(&target, 0, 308, Some(&vec![0xff])),
        RedirectAction::Fail(InformantError::InvalidHeaderValue)
    );
}

#[test]
fn fetch_follows_at_most_the_chain_limit() {
    let parameters = FeedParameters { feed_url: "http://example.org/feed".to_owned() };
    let mut state = start_fetch(&parameters).unwrap();
    assert_eq!(state, FetchState { target: url("http://example.org/feed", "http"), redirections: 0 });
    let loc = b"/again".to_vec();
    let mut followed = 0;
    loop {
        match state.advance(302, Some(&loc)) {
            FetchStep::Continue(next) => {
                followed += 1;
                state = next;
            },
            FetchStep::Fail(e) => {
                assert_eq!(e, InformantError::HttpRedirectionCountLimitReached);
                break;
            },
            FetchStep::Done => panic!("a redirection is no feed"),
        }
    }
    assert_eq!(followed, REDIRECTION_CHAIN_LIMIT);
    assert_eq!(state.target.href, "http://example.org/again");
    assert_eq!(state.advance(200, None), FetchStep::Done);
}

#[test]
fn fetch_of_an_invalid_url_fails() {
    let parameters = FeedParameters { feed_url: "not a url".to_owned() };
    assert_eq!(start_fetch(&parameters), Err(InformantError::UrlParseError(UrlError::RelativeUrlWithoutBase)));
}

fn telegram_post(data_post: &str, datetime: &str, text: &str) -> String {
    format!(
        "<div class=\"tgme_widget_message js-widget_message\" data-post=\"{data_post}\">\
         <div class=\"tgme_widget_message_text js-message_text\">{text}</div>\
         <div class=\"tgme_widget_message_footer js-message_footer\"><div class=\"tgme_widget_message_meta\">\
         <span class=\"tgme_widget_message_date\"><time class=\"time\" datetime=\"{datetime}\">x</time></span>\
         </div></div></div>"
    )
}

#[test]
fn parsing_telegram_web_inline_page() {
    let page = format!(
        "{}{}",
        telegram_post(
            "telegram/425",
            "2026-02-10T17:43:45+00:00",
            "<b>New Design.</b><i>fully redesigned interface</i><br/>More text"
        ),
        telegram_post(
            "telegram/445",
            "2026-05-14T16:09:50+00:00",
            "<b>statistics</b><i>custom limits</i><script>alert(1)</script><br/>end"
        ),
    );
    let news = parse_channel_page(&page, "telegram").unwrap();
    assert_eq!(news.len(), 2);

    let first = &news[0];
    assert_eq!(&first.title, "New Design.fully redesigned interface");
    assert_eq!(first.uri, Some("https://t.me/telegram/425".to_owned()));
    assert_eq!(first.summary, None);
    assert_eq!(first.published_at, Some(1_770_745_425 * NANOS));
    assert_eq!(first.source_provided_id, Some("telegram/425".to_owned()));
    assert!(first.content.as_ref().unwrap().contains("More text"));

    let last = &news[1];
    assert_eq!(&last.title, "statisticscustom limitsalert(1)");
    assert_eq!(last.uri, Some("https://t.me/telegram/445".to_owned()));
    assert_eq!(last.published_at, Some(1_778_774_990 * NANOS));
    assert!(!last.content.as_ref().unwrap().contains("script"));

    let from_bytes = parse_channel_page_bytes(page.as_bytes(), "telegram").unwrap();
    assert_eq!(from_bytes.len(), 2);
    assert_eq!(from_bytes[1].title, last.title);
}

#[test]
fn telegram_page_with_a_bare_post_id_is_refused() {
    let page = telegram_post("evil.example", "2026-02-10T17:43:45+00:00", "<b>x</b>");
    assert_eq!(parse_channel_page(&page, "telegram"), Err(InformantError::TelegramWebUndefiedFormat));
}

#[test]
fn telegram_pages_are_unescaped_before_scraping() {
    let page = telegram_post("telegram/7", "2026-02-10T17:43:45+00:00", "<b>Escaped</b><br/>x");
    let escaped = page.replace('"', "\\\"").replace('/', "\\/");
    assert!(escaped.contains("\\\""));
    let news = parse_channel_page(&escaped, "telegram").unwrap();
    assert_eq!(news.len(), 1);
    assert_eq!(news[0].title, "Escaped");
    assert_eq!(news[0].source_provided_id, Some("telegram/7".to_owned()));
}

#[test]
fn telegram_pages_with_foreign_or_broken_posts_are_refused() {
    let foreign = telegram_post("other/1", "2026-02-10T17:43:45+00:00", "<b>x</b>");
    assert_eq!(parse_channel_page(&foreign, "telegram"), Err(InformantError::TelegramWebUndefiedFormat));
    let not_number = telegram_post("telegram/abc", "2026-02-10T17:43:45+00:00", "<b>x</b>");
    assert_eq!(parse_channel_page(&not_number, "telegram"), Err(InformantError::TelegramWebUndefiedFormat));
    let bad_time = telegram_post("telegram/1", "yesterday", "<b>x</b>");
    assert_eq!(parse_channel_page(&bad_time, "telegram"), Err(InformantError::DateTimeParsingError));
    assert_eq!(parse_channel_page_bytes(&[0xff, 0xfe], "telegram"), Err(InformantError::InvalidUtf8Str));
    match parse_channel_page("bad escape \\x", "telegram") {
        Err(InformantError::UnescapeError(_)) => {},
        other => panic!("unexpected {:?}", other),
    }
    assert_eq!(parse_channel_page("<p>no posts</p>", "telegram"), Ok(Vec::new()));
}

#[test]
fn telegram_post_identifiers() {
    assert!(validate_post_id("telegram/425", "telegram"));
    assert!(!validate_post_id("425", "telegram"));
    assert!(!validate_post_id("evil.example", "telegram"));
    assert!(!validate_post_id("", "telegram"));
    assert!(validate_post_id("telegram/+7", "telegram"));
    assert!(validate_post_id("telegram/4294967295", "telegram"));
    assert!(!validate_post_id("telegram/4294967296", "telegram"));
    assert!(!validate_post_id("telegram/", "telegram"));
    assert!(!validate_post_id("telegram/1/2", "telegram"));
    assert!(!validate_post_id("durov/1", "telegram"));
}

#[test]
fn telegram_titles_and_addresses() {
    let children = vec![
        ChildElement { name: "b".to_owned(), inner_html: "A".to_owned() },
        ChildElement { name: "i".to_owned(), inner_html: "B".to_owned() },
        ChildElement { name: "br".to_owned(), inner_html: String::new() },
        ChildElement { name: "i".to_owned(), inner_html: "C".to_owned() },
    ];
    assert_eq!(title_html(&children), "AB");
    assert_eq!(title_html(&Vec::new()), "");
    assert_eq!(post_url("telegram/1"), "https://t.me/telegram/1");
    assert_eq!(channel_feed_uri("telegram"), "https://t.me/s/telegram");
}

#[test]
fn telegram_posts_become_news() {
    let post = ScrapedPost {
        data_post: Some("telegram/9".to_owned()),
        datetime: Some("2026-02-10T17:43:45+00:00".to_owned()),
        text: Some(ScrapedText {
            children: vec![ChildElement { name: "b".to_owned(), inner_html: "Hi".to_owned() }],
            inner_html: "<b>Hi</b>".to_owned(),
        }),
    };
    let n = post_to_news(&post, "telegram").unwrap();
    assert_eq!(n.title, "Hi");
    assert_eq!(n.content, Some("<b>Hi</b>".to_owned()));
    assert_eq!(n.uri, Some("https://t.me/telegram/9".to_owned()));
    let bare_id = ScrapedPost { data_post: Some("e".to_owned()), ..post.clone() };
    assert_eq!(post_to_news(&bare_id, "telegram"), Err(InformantError::TelegramWebUndefiedFormat));
    let no_id = ScrapedPost { data_post: None, ..post.clone() };
    let no_time = ScrapedPost { datetime: None, ..post.clone() };
    assert_eq!(post_to_news(&no_id, "telegram"), Err(InformantError::TelegramWebUndefiedFormat));
    assert_eq!(post_to_news(&no_time, "telegram"), Err(InformantError::TelegramWebUndefiedFormat));
    assert_eq!(
        posts_to_news(&vec![post.clone(), no_time, no_id], "telegram"),
        Err(InformantError::TelegramWebUndefiedFormat)
    );
    assert_eq!(posts_to_news(&vec![post.clone()], "telegram").unwrap().len(), 1);
}

#[test]
fn informant_types_round_trip() {
    for t in [Type::FeedRs] {
        assert_eq!(Type::try_from_id(t.id()), Ok(t));
        assert_eq!(Type::try_from(t.id()), Ok(t));
    }
    assert_eq!(Type::FeedRs.id(), 1);
    assert_eq!(Type::try_from_id(9), Err(InformantError::UnsupportedInformatIdentifier(9)));
    assert_eq!(Type::try_from_id(0), Err(InformantError::UnsupportedInformatIdentifier(0)));
    let p = Parameters::FeedRs(FeedParameters { feed_url: "https://example.org".to_owned() });
    assert_eq!(Type::from_parameters(&p), Type::FeedRs);
    assert_eq!(Type::from(&p), Type::FeedRs);
}

#[test]
fn informant_error_kinds() {
    assert_eq!(InformantError::TokioOneShotError.kind(), InformantErrorKind::Internal);
    assert_eq!(InformantError::InvalidHeaderValue.kind(), InformantErrorKind::Network);
    assert_eq!(InformantError::TelegramWebUndefiedFormat.kind(), InformantErrorKind::Parsing);
    assert_eq!(InformantError::NoTargetUriAuthority.kind(), InformantErrorKind::Parameters);
    assert_eq!(InformantErrorKind::Internal.code(), 0);
    assert_eq!(InformantErrorKind::Network.code(), 1);
    assert_eq!(InformantErrorKind::Parsing.code(), 2);
    assert_eq!(InformantErrorKind::Parameters.code(), 3);
    assert_eq!(i8::from(InformantErrorKind::Parsing), 2);
}
