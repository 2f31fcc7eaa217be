//! The informant service: which repository query serves a request for news items.

use vstd::prelude::*;

verus! {

/// A query of the news item repository.
#[derive(Debug, Clone, PartialEq, Eq)]
pub enum NewsItemQuery {
    /// The items of an informant, at most `max_items` of them when given.
    Latest { max_items: Option<i32> },
    /// The items at an index.
    ByIndex { index: String },
    /// The items between two indexes.
    ByIndexRange { start_index: String, end_index: String },
}

/// The query for a request of the items of an informant: by index range when both bounds are
/// given, by index when only the start is, else the latest items.
pub fn select_news_item_query(
    start_index: Option<String>,
    end_index: Option<String>,
    max_items: Option<i32>,
) -> (r: NewsItemQuery)
    ensures
        match (start_index, end_index) {
            (Some(s), Some(e)) => r == NewsItemQuery::ByIndexRange { start_index: s, end_index: e },
            (Some(s), None) => r == NewsItemQuery::ByIndex { index: s },
            (None, _) => r == NewsItemQuery::Latest { max_items },
        },
{
    match start_index {
        Some(s) => match end_index {
            Some(e) => NewsItemQuery::ByIndexRange { start_index: s, end_index: e },
            None => NewsItemQuery::ByIndex { index: s },
        },
        None => NewsItemQuery::Latest { max_items },
    }
}

} // verus!
