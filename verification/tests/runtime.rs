use aleym_core::clock::{from_unix_timestamp, saturating_sub, whole_milliseconds, DURATION_MAX, DURATION_MIN};
use aleym_core::db::news::AddingNewsOutput;
use aleym_core::db::signals::SourceFeedbackSignal;
use aleym_core::db::StorageError;
use aleym_core::inform::{InformantError, InformantErrorKind};
use aleym_core::ml::SchedulerError;
use aleym_core::models::{Informant, NewsItem};
use aleym_core::net::http::{cleartext_http_version, resolve_http_target, str_eq, HttpTarget, HttpVersion};
use aleym_core::net::proxy::{proxy_reply, ProxyCommand, ProxyReply};
use aleym_core::net::{Client, ClearInterface, InterfaceType, Network, NetworkError};
use aleym_core::scheduler::{fetch_signal_of, plan_wait, Wait};
use aleym_core::services::{select_news_item_query, NewsItemQuery};
use aleym_core::text::{chars_eq, chars_of, string_from_chars};
use aleym_core::Error;

#[test]
fn timer_waits_until_the_next_fetch() {
    assert_eq!(plan_wait(None, 5), Wait::Idle);
    assert_eq!(plan_wait(Some(5_000_000_000), 1_000_000_000), Wait::SleepThenPop(4_000));
    assert_eq!(plan_wait(Some(1_999_999), 0), Wait::SleepThenPop(1));
    assert_eq!(plan_wait(Some(10), 20), Wait::SleepThenPop(0));
    assert_eq!(plan_wait(Some(20), 20), Wait::SleepThenPop(0));
}

#[test]
fn fetch_signals_of_executions() {
    let out = AddingNewsOutput { new: vec![1, 2, 3], touched: vec![4], latest_publish: Some(9), oldest_publish: Some(2) };
    assert_eq!(
        fetch_signal_of(7, 100, 50, &Ok(out)),
        Ok(SourceFeedbackSignal::FetchSignal {
            source: 7,
            done_at: 100,
            duration: 50,
            failure_code: None,
            new_items_count: 3,
            latest_publish_at: Some(9),
            oldest_publish_at: Some(2),
        })
    );
    assert_eq!(
        fetch_signal_of(7, 100, 50, &Err(InformantErrorKind::Network)),
        Ok(SourceFeedbackSignal::FetchSignal {
            source: 7,
            done_at: 100,
            duration: 50,
            failure_code: Some(InformantErrorKind::Network),
            new_items_count: 0,
            latest_publish_at: None,
            oldest_publish_at: None,
        })
    );
}

#[test]
fn http_targets() {
    assert_eq!(
        resolve_http_target(Some("https"), Some("example.org"), None, true),
        Ok(HttpTarget { secure: true, host: "example.org".to_owned(), port: 443 })
    );
    assert_eq!(
        resolve_http_target(Some("http"), Some("example.org"), Some(8080), true),
        Ok(HttpTarget { secure: false, host: "example.org".to_owned(), port: 8080 })
    );
    assert_eq!(
        resolve_http_target(Some("http"), Some("example.org"), None, false),
        Ok(HttpTarget { secure: false, host: "example.org".to_owned(), port: 80 })
    );
    assert_eq!(
        resolve_http_target(Some("https"), Some("example.org"), None, false),
        Err(NetworkError::UnsupportedProtocolScheme)
    );
    assert_eq!(resolve_http_target(Some("ftp"), Some("example.org"), None, true), Err(NetworkError::UnsupportedProtocolScheme));
    assert_eq!(resolve_http_target(None, Some("example.org"), None, true), Err(NetworkError::NoProtocolScheme));
    assert_eq!(resolve_http_target(Some("http"), None, None, true), Err(NetworkError::NoTargetHost));
    assert_eq!(cleartext_http_version(true), HttpVersion::Http2);
    assert_eq!(cleartext_http_version(false), HttpVersion::Http1);
    assert!(str_eq("abc", "abc"));
    assert!(!str_eq("abc", "abd"));
}

#[test]
fn proxy_replies() {
    assert_eq!(proxy_reply(ProxyCommand::Connect, true), ProxyReply::Succeeded);
    assert_eq!(proxy_reply(ProxyCommand::Connect, false), ProxyReply::HostUnreachable);
    assert_eq!(proxy_reply(ProxyCommand::Bind, true), ProxyReply::CommandNotSupported);
    assert_eq!(proxy_reply(ProxyCommand::Associate, true), ProxyReply::CommandNotSupported);
}

#[test]
fn network_clients() {
    let network = Network::new().unwrap();
    assert_eq!(network.new_client(InterfaceType::Clear), Client::Clear(ClearInterface::new()));
    for t in [InterfaceType::Clear] {
        assert_eq!(InterfaceType::try_from_id(t.id()), Ok(t));
        assert_eq!(InterfaceType::try_from(t.id()), Ok(t));
    }
    assert_eq!(InterfaceType::Clear.id(), 1);
    assert_eq!(InterfaceType::try_from_id(-3), Err(NetworkError::UnsupportedNetworkInterfaceIdentifier(-3)));
    assert_eq!(InterfaceType::try_from_id(0), Err(NetworkError::UnsupportedNetworkInterfaceIdentifier(0)));
}

#[test]
fn news_item_queries() {
    assert_eq!(
        select_news_item_query(Some("a".to_owned()), Some("b".to_owned()), Some(3)),
        NewsItemQuery::ByIndexRange { start_index: "a".to_owned(), end_index: "b".to_owned() }
    );
    assert_eq!(select_news_item_query(Some("a".to_owned()), None, None), NewsItemQuery::ByIndex { index: "a".to_owned() });
    assert_eq!(select_news_item_query(None, Some("b".to_owned()), Some(3)), NewsItemQuery::Latest { max_items: Some(3) });
}

#[test]
fn clock_arithmetic() {
    assert_eq!(from_unix_timestamp(2), Some(2_000_000_000));
    assert_eq!(from_unix_timestamp(253_402_300_799), Some(253_402_300_799_000_000_000));
    assert_eq!(from_unix_timestamp(253_402_300_800), None);
    assert_eq!(from_unix_timestamp(-377_705_116_801), None);
    assert_eq!(saturating_sub(5, 7), -2);
    assert_eq!(saturating_sub(DURATION_MAX, -1), DURATION_MAX);
    assert_eq!(saturating_sub(DURATION_MIN, 1), DURATION_MIN);
    assert_eq!(whole_milliseconds(-2_500_000), -2);
    assert_eq!(whole_milliseconds(2_500_000), 2);
}

#[test]
fn text_helpers() {
    let cs = chars_of("héllo");
    assert_eq!(cs, vec!['h', 'é', 'l', 'l', 'o']);
    assert!(chars_eq(&cs, &chars_of("héllo")));
    assert!(!chars_eq(&cs, &chars_of("hello")));
    assert_eq!(string_from_chars(&cs), "héllo");
    assert_eq!(string_from_chars(&vec!['a', 'ß']), "aß");
}

#[test]
fn errors_convert_into_the_library_error() {
    assert_eq!(Error::from(StorageError::IntegerOutOfRange), Error::StorageError(StorageError::IntegerOutOfRange));
    assert_eq!(Error::from(NetworkError::NoTargetHost), Error::NetworkError(NetworkError::NoTargetHost));
    assert_eq!(
        Error::from(InformantError::InvalidUtf8Str),
        Error::InformantError(InformantError::InvalidUtf8Str)
    );
    assert_eq!(
        Error::from(SchedulerError::SourceNotScheduled(4)),
        Error::SchedulerError(SchedulerError::SourceNotScheduled(4))
    );
    assert_eq!(
        InformantError::from(NetworkError::UnsuccessfulHttpRequest(500)),
        InformantError::NetworkError(NetworkError::UnsuccessfulHttpRequest(500))
    );
}

#[test]
fn plain_records() {
    let at = chrono::NaiveDateTime::default();
    let i = Informant::new(1, "feed".to_owned(), serde_json::Value::Null, at, at);
    assert_eq!((i.id, i.name.as_str()), (1, "feed"));
    let n = NewsItem::new(2, 1, "p".to_owned(), "idx".to_owned(), "t".to_owned(), "c".to_owned(), at, at);
    assert_eq!((n.id, n.informant_id, n.index.as_str(), n.title.as_str()), (2, 1, "idx", "t"));
}
