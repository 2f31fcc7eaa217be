use aleym_core::db::database_url;
use aleym_core::db::news::{
    group_news, plan_news_addition, plan_news_addition_with_fresh_ids, sort_versions, AddingNewsOutput, GroupLookup,
    InputNews, NewsGroup, StoredNews,
};
use aleym_core::db::query::{
    contains_pattern, plan_news_query, sampled_positions, BySourceDirectory, BySources, CursorKey, DirectoryCondition,
    NewsFilter, SourceCondition,
};
use aleym_core::db::signals::{
    average_fetch_duration, duration_millis, fetch_record, fetch_record_with_id, user_feedback_record,
    user_feedback_record_with_id, FetchSignalRecord, SourceFeedbackSignal, UserFeedbackRecord, UserFeedbackSignal,
};
use aleym_core::db::{SortOrder, StorageError};
use aleym_core::clock::{TIME_MAX, TIME_MIN};
use aleym_core::inform::InformantErrorKind;

fn news(key: Option<&str>, title: &str, published: Option<i128>, updated: Option<i128>) -> InputNews {
    InputNews {
        source_provided_id: key.map(str::to_owned),
        uri: Some(format!("https://example.org/{title}")),
        title: title.to_owned(),
        summary: None,
        content: Some(format!("content of {title}")),
        published_at: published,
        updated_at: updated,
    }
}

fn titles(v: &[InputNews]) -> Vec<&str> {
    v.iter().map(|n| n.title.as_str()).collect()
}

#[test]
fn grouping_by_source_provided_identifier() {
    let x = news(Some("a"), "x", Some(1), None);
    let y = news(None, "y", None, None);
    let z = news(Some("a"), "z", Some(2), None);
    let w = news(None, "w", None, None);
    let groups = group_news(&vec![x.clone(), y.clone(), x.clone(), z.clone(), w.clone(), y.clone()]);
    assert_eq!(groups.len(), 2);
    assert_eq!(groups[0].key, Some("a".to_owned()));
    assert_eq!(titles(&groups[0].items), vec!["x", "z"]);
    assert_eq!(groups[1].key, None);
    assert_eq!(titles(&groups[1].items), vec!["y", "w"]);
    assert!(group_news(&Vec::new()).is_empty());
}

#[test]
fn versions_sort_oldest_first_and_stably() {
    let items = vec![
        news(Some("a"), "late", Some(5), Some(30)),
        news(Some("a"), "undated", None, None),
        news(Some("a"), "early", Some(10), None),
        news(Some("a"), "tie", Some(30), None),
        news(Some("a"), "undated2", None, None),
    ];
    let sorted = sort_versions(&items);
    assert_eq!(titles(&sorted), vec!["undated", "undated2", "early", "late", "tie"]);
}

#[test]
fn publication_bounds_widen() {
    let mut out = AddingNewsOutput { new: vec![1], touched: vec![], latest_publish: None, oldest_publish: None };
    out.update_publish_bounds(None);
    assert_eq!((out.oldest_publish, out.latest_publish), (None, None));
    out.update_publish_bounds(Some(50));
    assert_eq!((out.oldest_publish, out.latest_publish), (Some(50), Some(50)));
    out.update_publish_bounds(Some(70));
    out.update_publish_bounds(Some(20));
    out.update_publish_bounds(Some(60));
    assert_eq!((out.oldest_publish, out.latest_publish), (Some(20), Some(70)));
    assert_eq!(out.new, vec![1]);
}

#[test]
fn new_versions_chain_after_each_other() {
    let v1 = news(Some("a"), "v1", Some(10), None);
    let v2 = news(Some("a"), "v2", Some(15), Some(20));
    let groups = group_news(&vec![v2.clone(), v1.clone()]);
    let lookups = vec![GroupLookup::Versioned(None)];
    let plan = plan_news_addition(9, &groups, &lookups, &vec![100, 101], 777);
    assert_eq!(plan.inserts.len(), 2);
    let (a, b) = (&plan.inserts[0], &plan.inserts[1]);
    assert_eq!((a.id, a.title.as_str(), a.is_latest_version, a.previous_version), (100, "v1", false, None));
    assert_eq!((b.id, b.title.as_str(), b.is_latest_version, b.previous_version), (101, "v2", true, Some(100)));
    assert_eq!((a.source, a.first_fetched_at, a.last_fetched_at, a.is_read), (9, 777, 777, false));
    assert_eq!(plan.output.new, vec![100, 101]);
    assert!(plan.output.touched.is_empty());
    assert!(plan.refresh.is_empty());
    assert!(plan.demote.is_empty());
    assert_eq!((plan.output.oldest_publish, plan.output.latest_publish), (Some(10), Some(15)));
}

fn stored(id: u128, n: &InputNews) -> StoredNews {
    StoredNews {
        id,
        uri: n.uri.clone(),
        title: n.title.clone(),
        summary: n.summary.clone(),
        content: n.content.clone(),
        published_at: n.published_at,
        updated_at: n.updated_at,
    }
}

#[test]
fn unchanged_version_is_touched_and_newer_ones_follow_it() {
    let v1 = news(Some("a"), "v1", Some(10), None);
    let v2 = news(Some("a"), "v2", Some(15), Some(20));
    let groups = group_news(&vec![v1.clone(), v2.clone()]);
    let lookups = vec![GroupLookup::Versioned(Some(stored(50, &v1)))];
    let plan = plan_news_addition(9, &groups, &lookups, &vec![100, 101], 777);
    assert_eq!(plan.inserts.len(), 1);
    let b = &plan.inserts[0];
    assert_eq!((b.id, b.title.as_str(), b.is_latest_version, b.previous_version), (100, "v2", true, Some(50)));
    assert_eq!(plan.refresh, vec![50]);
    assert_eq!(plan.demote, vec![50]);
    assert_eq!(plan.output.new, vec![100]);
    assert_eq!(plan.output.touched, vec![50, 50]);
    assert_eq!((plan.output.oldest_publish, plan.output.latest_publish), (Some(15), Some(15)));
}

#[test]
fn carried_out_plan_keeps_one_chain_per_identifier() {
    let old = news(Some("a"), "a1", Some(10), None);
    let a2 = news(Some("a"), "a2", Some(20), None);
    let a3 = news(Some("a"), "a3", Some(30), None);
    let b1 = news(Some("b"), "b1", Some(5), None);
    let b2 = news(Some("b"), "b2", Some(6), None);
    // The stored records of the source: (identifier, key, latest, previous version).
    let mut table: Vec<(u128, String, bool, Option<u128>)> =
        vec![(40, "a".to_owned(), false, None), (50, "a".to_owned(), true, Some(40))];
    let groups = group_news(&vec![a3.clone(), b1.clone(), a2.clone(), b2.clone()]);
    let lookups: Vec<GroupLookup> = groups
        .iter()
        .map(|g| match g.key.as_deref() {
            Some("a") => GroupLookup::Versioned(Some(stored(50, &old))),
            _ => GroupLookup::Versioned(None),
        })
        .collect();
    let plan = plan_news_addition(9, &groups, &lookups, &vec![100, 101, 102, 103], 777);
    for row in table.iter_mut() {
        if plan.demote.contains(&row.0) {
            row.2 = false;
        }
    }
    for r in &plan.inserts {
        table.push((r.id, r.source_provided_id.clone().unwrap(), r.is_latest_version, r.previous_version));
    }
    for key in ["a", "b"] {
        let rows: Vec<_> = table.iter().filter(|r| r.1 == key).collect();
        assert_eq!(rows.iter().filter(|r| r.2).count(), 1);
        for (i, x) in rows.iter().enumerate() {
            for y in &rows[i + 1..] {
                assert_ne!(x.3, y.3);
            }
        }
    }
    assert_eq!(
        table,
        vec![
            (40, "a".to_owned(), false, None),
            (50, "a".to_owned(), false, Some(40)),
            (100, "a".to_owned(), false, Some(50)),
            (101, "a".to_owned(), true, Some(100)),
            (102, "b".to_owned(), false, None),
            (103, "b".to_owned(), true, Some(102)),
        ]
    );
}

#[test]
fn changed_version_supersedes_the_stored_one() {
    let v1 = news(Some("a"), "v1 edited", Some(10), Some(11));
    let old = news(Some("a"), "v1", Some(10), None);
    let groups = group_news(&vec![v1.clone()]);
    let lookups = vec![GroupLookup::Versioned(Some(stored(50, &old)))];
    let plan = plan_news_addition(9, &groups, &lookups, &vec![100], 1);
    assert_eq!(plan.inserts.len(), 1);
    assert_eq!(plan.inserts[0].previous_version, Some(50));
    assert!(plan.inserts[0].is_latest_version);
    assert!(plan.refresh.is_empty());
    assert_eq!(plan.demote, vec![50]);
    assert_eq!(plan.output.touched, vec![50]);
}

#[test]
fn unversioned_items_are_touched_or_inserted() {
    let a = news(None, "a", Some(3), None);
    let b = news(None, "b", None, None);
    let groups = vec![NewsGroup { key: None, items: vec![a.clone(), b.clone()] }];
    let lookups = vec![GroupLookup::Unversioned(vec![Some(7), None])];
    let plan = plan_news_addition(9, &groups, &lookups, &vec![200, 201], 5);
    assert_eq!(plan.refresh, vec![7]);
    assert_eq!(plan.output.touched, vec![7]);
    assert_eq!(plan.inserts.len(), 1);
    assert_eq!((plan.inserts[0].id, plan.inserts[0].title.as_str()), (200, "b"));
    assert!(plan.inserts[0].is_latest_version);
    assert_eq!(plan.inserts[0].previous_version, None);
    assert_eq!(plan.output.new, vec![200]);
    assert_eq!((plan.output.oldest_publish, plan.output.latest_publish), (None, None));
}

#[test]
fn fresh_identifiers_are_drawn_for_new_records() {
    let groups = group_news(&vec![news(Some("k"), "one", Some(1), None), news(None, "two", Some(2), None)]);
    let lookups = vec![GroupLookup::Versioned(None), GroupLookup::Unversioned(vec![None])];
    let plan = plan_news_addition_with_fresh_ids(3, &groups, &lookups, 42);
    assert_eq!(plan.inserts.len(), 2);
    assert_ne!(plan.inserts[0].id, plan.inserts[1].id);
    assert_eq!(plan.output.new, vec![plan.inserts[0].id, plan.inserts[1].id]);
    assert_eq!((plan.output.oldest_publish, plan.output.latest_publish), (Some(1), Some(2)));
}

#[test]
fn database_urls() {
    assert_eq!(database_url(Some("/tmp/aleym.db")), "sqlite:///tmp/aleym.db?mode=rwc");
    assert_eq!(database_url(None), "sqlite::memory:");
}

#[test]
fn like_patterns_escape_wildcards() {
    assert_eq!(contains_pattern("50%_off"), "%50\\%\\_off%");
    assert_eq!(contains_pattern(""), "%%");
}

#[test]
fn news_query_plans() {
    let filter = NewsFilter {
        text: Some("a_b".to_owned()),
        sources: Some(BySources::Scope {
            directory: Some(BySourceDirectory { parent_directory: 4, recursive: true }),
            categories: vec![],
        }),
    };
    let q = plan_news_query(filter, SortOrder::Ascending, 10, 20, 50);
    assert_eq!(q.like_pattern, Some("%a\\_b%".to_owned()));
    assert_eq!(
        q.sources,
        SourceCondition::Scope { categories: None, directory: Some(DirectoryCondition::Descendants(4)) }
    );
    assert!(!q.descending);
    assert_eq!(q.limit, 50);
    assert_eq!(q.after, CursorKey { first_fetched_at: 10, published_at: TIME_MIN, updated_at: TIME_MIN, id: 0 });
    assert_eq!(q.before, CursorKey { first_fetched_at: 20, published_at: TIME_MAX, updated_at: TIME_MAX, id: u128::MAX });

    let filter = NewsFilter { text: None, sources: Some(BySources::Identifiers(vec![1, 2])) };
    let q = plan_news_query(filter, SortOrder::Descending, 10, 20, 5);
    assert_eq!(q.like_pattern, None);
    assert_eq!(q.sources, SourceCondition::Identifiers(vec![1, 2]));
    assert!(q.descending);
    assert_eq!(q.after.first_fetched_at, 20);
    assert_eq!(q.after.id, u128::MAX);
    assert_eq!(q.before.first_fetched_at, 10);
    assert_eq!(q.before.id, 0);

    let filter = NewsFilter {
        text: None,
        sources: Some(BySources::Scope {
            directory: Some(BySourceDirectory { parent_directory: 4, recursive: false }),
            categories: vec![8],
        }),
    };
    let q = plan_news_query(filter, SortOrder::Ascending, 0, 1, 1);
    assert_eq!(q.sources, SourceCondition::Scope { categories: Some(vec![8]), directory: Some(DirectoryCondition::Exact(4)) });
    let q = plan_news_query(NewsFilter { text: None, sources: None }, SortOrder::Ascending, 0, 1, 1);
    assert_eq!(q.sources, SourceCondition::Any);
}

#[test]
fn sampled_positions_keep_candidate_order() {
    assert_eq!(sampled_positions(6, &vec![4, 1, 9, 4, 2]), vec![1, 2, 4]);
    assert!(sampled_positions(0, &vec![0]).is_empty());
}

#[test]
fn durations_in_whole_milliseconds() {
    assert_eq!(duration_millis(1_999_999), Ok(1));
    assert_eq!(duration_millis(-1_999_999), Ok(-1));
    assert_eq!(duration_millis(2_147_483_647 * 1_000_000), Ok(i32::MAX));
    assert_eq!(duration_millis(2_147_483_648 * 1_000_000), Err(StorageError::IntegerOutOfRange));
}

#[test]
fn user_feedback_records() {
    let read = UserFeedbackSignal::NewsReadSignal { news: 3, done_at: 100, duration: 5_000_000, scroll_depth_percentage: 80 };
    assert_eq!(
        user_feedback_record_with_id(&read, 11),
        Ok(UserFeedbackRecord::Read { id: 11, news: 3, done_at: 100, duration_millis: 5, scroll_depth_percentage: 80 })
    );
    let too_deep = UserFeedbackSignal::NewsReadSignal { news: 3, done_at: 100, duration: 5, scroll_depth_percentage: 101 };
    assert_eq!(user_feedback_record_with_id(&too_deep, 11), Err(StorageError::InvalidPercentageNumber(101)));
    let negative = UserFeedbackSignal::NewsReadSignal { news: 3, done_at: 100, duration: 5, scroll_depth_percentage: -1 };
    assert_eq!(user_feedback_record(&negative), Err(StorageError::InvalidPercentageNumber(-1)));
    let long = UserFeedbackSignal::NewsFocusSignal { news: 3, done_at: 1, duration: i64::MAX as i128 * 1_000_000_000 };
    assert_eq!(user_feedback_record(&long), Err(StorageError::IntegerOutOfRange));
    let seen = UserFeedbackSignal::NewsApearanceSignal { news: 4, happened_at: 2, duration: 3_000_000 };
    match user_feedback_record(&seen) {
        Ok(UserFeedbackRecord::Appearance { news, happened_at, duration_millis, .. }) => {
            assert_eq!((news, happened_at, duration_millis), (4, 2, 3))
        },
        other => panic!("unexpected {:?}", other),
    }
    let vote = UserFeedbackSignal::NewsExplicitVoteSignal { news: 5, done_at: 6, is_up_vote: true };
    assert_eq!(
        user_feedback_record_with_id(&vote, 1),
        Ok(UserFeedbackRecord::Vote { id: 1, news: 5, done_at: 6, is_up_vote: true })
    );
}

#[test]
fn fetch_signal_records() {
    let s = SourceFeedbackSignal::FetchSignal {
        source: 2,
        done_at: 10,
        duration: 1_500_000,
        failure_code: Some(InformantErrorKind::Parsing),
        new_items_count: 0,
        latest_publish_at: None,
        oldest_publish_at: None,
    };
    assert_eq!(
        fetch_record_with_id(&s, 8),
        Ok(FetchSignalRecord {
            id: 8,
            source: 2,
            done_at: 10,
            duration_millis: 1,
            failure_code: Some(2),
            new_items_count: 0,
            latest_publish_at: None,
            oldest_publish_at: None,
        })
    );
    let r = fetch_record(&s).unwrap();
    assert_eq!((r.source, r.duration_millis, r.failure_code), (2, 1, Some(2)));
    let long = SourceFeedbackSignal::FetchSignal {
        source: 2,
        done_at: 10,
        duration: -(i64::MAX as i128) * 1_000_000_000,
        failure_code: None,
        new_items_count: 1,
        latest_publish_at: Some(1),
        oldest_publish_at: Some(1),
    };
    assert_eq!(fetch_record(&long), Err(StorageError::IntegerOutOfRange));
}

#[test]
fn average_fetch_durations() {
    assert_eq!(average_fetch_duration(&vec![]), 0);
    assert_eq!(average_fetch_duration(&vec![1, 2]), 1_500_000);
    assert_eq!(average_fetch_duration(&vec![-1, -2]), -1_500_000);
    assert_eq!(average_fetch_duration(&vec![i32::MAX, i32::MAX]), i32::MAX as i128 * 1_000_000);
}
