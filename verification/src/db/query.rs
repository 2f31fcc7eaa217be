//! Listing news: the plan of a filtered, cursor-paged query.

use vstd::prelude::*;

use super::SortOrder;
use crate::clock::{TIME_MAX, TIME_MIN};
use crate::text::{chars_of, push_char};

verus! {

/// Sources under a directory.
#[derive(Debug, Clone, Copy, PartialEq, Eq, Structural)]
pub struct BySourceDirectory {
    pub parent_directory: u128,
    /// Whether sources in descendant directories count too.
    pub recursive: bool,
}

/// Which sources news may come from.
#[derive(Debug, Clone, PartialEq, Eq)]
pub enum BySources {
    /// These sources.
    Identifiers(Vec<u128>),
    /// Sources in a directory and in some categories.
    Scope { directory: Option<BySourceDirectory>, categories: Vec<u128> },
}

/// A filter of news listings.
#[derive(Debug, Clone, PartialEq, Eq)]
pub struct NewsFilter {
    /// Text that the title, the summary or the content contains.
    pub text: Option<String>,
    pub sources: Option<BySources>,
}

/// A position in the order of news listings: first fetch time, publication time, update time,
/// identifier.
#[derive(Debug, Clone, Copy, PartialEq, Eq, Structural)]
pub struct CursorKey {
    pub first_fetched_at: i128,
    pub published_at: i128,
    pub updated_at: i128,
    pub id: u128,
}

/// The directory condition of a query.
#[derive(Debug, Clone, Copy, PartialEq, Eq, Structural)]
pub enum DirectoryCondition {
    /// Sources directly in the directory.
    Exact(u128),
    /// Sources in the directory or its descendants.
    Descendants(u128),
}

/// The source condition of a query.
#[derive(Debug, Clone, PartialEq, Eq)]
pub enum SourceCondition {
    /// Any source.
    Any,
    /// One of these sources.
    Identifiers(Vec<u128>),
    /// Sources in one of the categories (when given) and under the directory (when given).
    Scope { categories: Option<Vec<u128>>, directory: Option<DirectoryCondition> },
}

/// A query of the latest versions of news items.
#[derive(Debug, Clone, PartialEq, Eq)]
pub struct NewsQuery {
    /// A `LIKE` pattern (escaped with [`LIKE_ESCAPE`]) that the title, the summary or the
    /// content matches.
    pub like_pattern: Option<String>,
    pub sources: SourceCondition,
    /// Items strictly after this position.
    pub after: CursorKey,
    /// Items strictly before this position.
    pub before: CursorKey,
    /// Whether the items come in descending order.
    pub descending: bool,
    /// The most items to return.
    pub limit: u64,
}

/// The escape character of `LIKE` patterns.
pub const LIKE_ESCAPE: char = '\\';

/// `s` with the `LIKE` wildcards `%` and `_` escaped.
pub open spec fn escape_like_spec(s: Seq<char>) -> Seq<char>
    decreases s.len(),
{
    if s.len() == 0 {
        Seq::empty()
    } else {
        let c = s.last();
        escape_like_spec(s.drop_last()) + if c == '%' || c == '_' {
            seq![LIKE_ESCAPE, c]
        } else {
            seq![c]
        }
    }
}

/// The `LIKE` pattern of text contained anywhere: the text with its wildcards escaped, between
/// two `%`.
pub open spec fn contains_pattern_spec(text: Seq<char>) -> Seq<char> {
    seq!['%'] + escape_like_spec(text) + seq!['%']
}

/// Escaping works character by character: escaping a concatenation escapes each part, and a
/// single character is kept, preceded by [`LIKE_ESCAPE`] exactly when it is the wildcard `%`
/// or `_`.
pub proof fn law_escape_like_by_character(s: Seq<char>, t: Seq<char>, c: char)
    ensures
        escape_like_spec(s + t) == escape_like_spec(s) + escape_like_spec(t),
        escape_like_spec(seq![c]) == (if c == '%' || c == '_' {
            seq!['\\', c]
        } else {
            seq![c]
        }),
    decreases t.len(),
{
    let one = seq![c];
    assert(one.drop_last() =~= Seq::<char>::empty());
    assert(one.last() == c);
    let x: Seq<char> = if c == '%' || c == '_' { seq![LIKE_ESCAPE, c] } else { seq![c] };
    assert(escape_like_spec(one) == escape_like_spec(one.drop_last()) + x);
    assert(Seq::<char>::empty() + x =~= x);
    if t.len() == 0 {
        assert(s + t =~= s);
        assert(escape_like_spec(s) + escape_like_spec(t) =~= escape_like_spec(s));
    } else {
        law_escape_like_by_character(s, t.drop_last(), c);
        assert((s + t).drop_last() =~= s + t.drop_last());
        assert((s + t).last() == t.last());
    }
}

/// The pattern of text contained anywhere matches any text around it: it starts and ends with
/// the `%` wildcard, and between them holds the text with its wildcards escaped.
pub proof fn law_contains_pattern_shape(text: Seq<char>)
    ensures
        contains_pattern_spec(text).len() == escape_like_spec(text).len() + 2,
        contains_pattern_spec(text)[0] == '%',
        contains_pattern_spec(text).last() == '%',
        contains_pattern_spec(text).subrange(1, contains_pattern_spec(text).len() - 1) == escape_like_spec(text),
{
    assert(contains_pattern_spec(text).subrange(1, contains_pattern_spec(text).len() - 1) =~= escape_like_spec(text));
}

/// The cursor bounds of a first fetch time: the lowest position at that time (earliest times,
/// smallest identifier) and the highest one (latest times, largest identifier).
pub proof fn law_cursor_keys(t: i128)
    ensures
        low_key(t).first_fetched_at == t && high_key(t).first_fetched_at == t,
        low_key(t).published_at == TIME_MIN && low_key(t).updated_at == TIME_MIN && low_key(t).id == 0,
        high_key(t).published_at == TIME_MAX && high_key(t).updated_at == TIME_MAX && high_key(t).id == u128::MAX,
{
}

/// The `LIKE` pattern of text contained anywhere.
pub fn contains_pattern(text: &str) -> (r: String)
    ensures
        r@ == contains_pattern_spec(text@),
{
    let cs = chars_of(text);
    let mut r = String::new();
    push_char(&mut r, '%');
    let mut i: usize = 0;
    while i < cs.len()
        invariant
            i <= cs@.len(),
            r@ == seq!['%'] + escape_like_spec(cs@.take(i as int)),
        decreases cs@.len() - i,
    {
        let c = cs[i];
        assert(cs@.take(i + 1).drop_last() =~= cs@.take(i as int));
        if c == '%' || c == '_' {
            push_char(&mut r, LIKE_ESCAPE);
        }
        push_char(&mut r, c);
        assert(r@ =~= seq!['%'] + escape_like_spec(cs@.take(i + 1)));
        i = i + 1;
    }
    assert(cs@.take(cs@.len() as int) =~= cs@);
    push_char(&mut r, '%');
    r
}

/// The lowest cursor position at a first fetch time.
pub open spec fn low_key(t: i128) -> CursorKey {
    CursorKey { first_fetched_at: t, published_at: TIME_MIN, updated_at: TIME_MIN, id: 0 }
}

/// The highest cursor position at a first fetch time.
pub open spec fn high_key(t: i128) -> CursorKey {
    CursorKey { first_fetched_at: t, published_at: TIME_MAX, updated_at: TIME_MAX, id: u128::MAX }
}

/// The source condition of a filter.
pub open spec fn source_condition_spec(sources: Option<BySources>) -> SourceCondition {
    match sources {
        None => SourceCondition::Any,
        Some(BySources::Identifiers(ids)) => SourceCondition::Identifiers(ids),
        Some(BySources::Scope { directory, categories }) => SourceCondition::Scope {
            categories: if categories.len() == 0 {
                None
            } else {
                Some(categories)
            },
            directory: match directory {
                None => None,
                Some(d) => Some(
                    if d.recursive {
                        DirectoryCondition::Descendants(d.parent_directory)
                    } else {
                        DirectoryCondition::Exact(d.parent_directory)
                    },
                ),
            },
        },
    }
}

/// A scope filter restricts the query to exactly its categories (no restriction when it lists
/// none) and to its directory (directly in it, or under it when recursive), the two parts
/// independently of each other; a list of sources restricts it to those sources, and no
/// filter leaves any source.
pub proof fn law_source_conditions(
    directory: Option<BySourceDirectory>,
    other_directory: Option<BySourceDirectory>,
    categories: Vec<u128>,
    other_categories: Vec<u128>,
    ids: Vec<u128>,
)
    ensures
        source_condition_spec(None) == SourceCondition::Any,
        source_condition_spec(Some(BySources::Identifiers(ids))) == SourceCondition::Identifiers(ids),
        source_condition_spec(Some(BySources::Scope { directory, categories })) matches SourceCondition::Scope {
            categories: c,
            directory: d,
        } && (categories.len() > 0 ==> c == Some(categories)) && (categories.len() == 0 ==> c is None) && (
        directory is None ==> d is None) && (directory matches Some(x) ==> d == Some(
            if x.recursive {
                DirectoryCondition::Descendants(x.parent_directory)
            } else {
                DirectoryCondition::Exact(x.parent_directory)
            },
        )),
        source_condition_spec(Some(BySources::Scope { directory, categories }))->Scope_categories
            == source_condition_spec(
            Some(BySources::Scope { directory: other_directory, categories }),
        )->Scope_categories,
        source_condition_spec(Some(BySources::Scope { directory, categories }))->Scope_directory
            == source_condition_spec(
            Some(BySources::Scope { directory, categories: other_categories }),
        )->Scope_directory,
{
}

/// The query of the latest versions of news items that pass `filter`, with first fetch times
/// between `cursor_after` and `cursor_before` (exclusive), in `sort_order`, at most `limit` of
/// them. In descending order the cursor bounds swap roles, so that the listing starts from
/// `cursor_before`.
pub fn plan_news_query(
    filter: NewsFilter,
    sort_order: SortOrder,
    cursor_after: i128,
    cursor_before: i128,
    limit: u64,
) -> (r: NewsQuery)
    ensures
        match filter.text {
            Some(t) => r.like_pattern matches Some(p) && p@ == contains_pattern_spec(t@),
            None => r.like_pattern is None,
        },
        r.sources == source_condition_spec(filter.sources),
        r.limit == limit,
        match sort_order {
            SortOrder::Ascending => !r.descending && r.after == low_key(cursor_after) && r.before == high_key(
                cursor_before,
            ),
            SortOrder::Descending => r.descending && r.after == high_key(cursor_before) && r.before == low_key(
                cursor_after,
            ),
        },
{
    let like_pattern = match &filter.text {
        Some(t) => Some(contains_pattern(t.as_str())),
        None => None,
    };
    let sources = match filter.sources {
        None => SourceCondition::Any,
        Some(BySources::Identifiers(ids)) => SourceCondition::Identifiers(ids),
        Some(BySources::Scope { directory, categories }) => SourceCondition::Scope {
            categories: if categories.len() == 0 {
                None
            } else {
                Some(categories)
            },
            directory: match directory {
                None => None,
                Some(d) => Some(
                    if d.recursive {
                        DirectoryCondition::Descendants(d.parent_directory)
                    } else {
                        DirectoryCondition::Exact(d.parent_directory)
                    },
                ),
            },
        },
    };
    let low_after = CursorKey { first_fetched_at: cursor_after, published_at: TIME_MIN, updated_at: TIME_MIN, id: 0 };
    let high_before = CursorKey { first_fetched_at: cursor_before, published_at: TIME_MAX, updated_at: TIME_MAX, id: u128::MAX };
    match sort_order {
        SortOrder::Ascending => NewsQuery { like_pattern, sources, after: low_after, before: high_before, descending: false, limit },
        SortOrder::Descending => NewsQuery { like_pattern, sources, after: high_before, before: low_after, descending: true, limit },
    }
}

/// The positions `0..count` that the sample holds, in increasing order.
pub open spec fn sampled_positions_spec(count: nat, sample: Seq<usize>) -> Seq<usize>
    decreases count,
{
    if count == 0 {
        Seq::empty()
    } else {
        let i = (count - 1) as usize;
        sampled_positions_spec((count - 1) as nat, sample) + if sample.contains(i) {
            seq![i]
        } else {
            Seq::empty()
        }
    }
}

/// The positions of the candidates that a weighted sample picked, in the candidates' order.
pub fn sampled_positions(count: usize, sample: &Vec<usize>) -> (r: Vec<usize>)
    ensures
        r@ == sampled_positions_spec(count as nat, sample@),
{
    let mut r: Vec<usize> = Vec::new();
    let mut i: usize = 0;
    while i < count
        invariant
            i <= count,
            r@ == sampled_positions_spec(i as nat, sample@),
        decreases count - i,
    {
        let mut j: usize = 0;
        let mut found = false;
        while j < sample.len() && !found
            invariant
                j <= sample@.len(),
                found ==> sample@.contains(i),
                !found ==> forall|a: int| 0 <= a < j ==> sample@[a] != i,
            decreases sample@.len() - j, (if found { 0int } else { 1int }),
        {
            if sample[j] == i {
                found = true;
            } else {
                j = j + 1;
            }
        }
        if found {
            r.push(i);
        }
        assert(r@ =~= sampled_positions_spec((i + 1) as nat, sample@));
        i = i + 1;
    }
    r
}

/// A sampled listing keeps the candidates' order, holds each picked position once, and holds
/// exactly the positions below `count` that the sample picked.
pub proof fn law_sampled_positions(count: nat, sample: Seq<usize>)
    requires
        count <= usize::MAX,
    ensures
        forall|a: int, b: int|
            0 <= a < b < sampled_positions_spec(count, sample).len() ==> sampled_positions_spec(count, sample)[a]
                < sampled_positions_spec(count, sample)[b],
        forall|i: usize| #[trigger] sampled_positions_spec(count, sample).contains(i) <==> (i < count && sample.contains(i)),
    decreases count,
{
    if count > 0 {
        law_sampled_positions((count - 1) as nat, sample);
        let prev = sampled_positions_spec((count - 1) as nat, sample);
        let cur = sampled_positions_spec(count, sample);
        let i = (count - 1) as usize;
        assert forall|x: usize| #[trigger] cur.contains(x) <==> (x < count && sample.contains(x)) by {
            if cur.contains(x) {
                let k = choose|k: int| 0 <= k < cur.len() && cur[k] == x;
                if k >= prev.len() {
                    assert(x == i);
                } else {
                    assert(prev[k] == x);
                    assert(prev.contains(x));
                }
            }
            if x < count && sample.contains(x) {
                if x == i {
                    assert(cur[prev.len() as int] == x);
                } else {
                    assert(prev.contains(x));
                    let k = choose|k: int| 0 <= k < prev.len() && prev[k] == x;
                    assert(cur[k] == x);
                }
            }
        }
        assert forall|a: int, b: int| 0 <= a < b < cur.len() implies cur[a] < cur[b] by {
            if b >= prev.len() {
                assert(cur[a] == prev[a]);
                assert(prev.contains(prev[a]));
                assert(prev[a] < count - 1);
                assert(cur[b] == i);
            } else {
                assert(cur[a] == prev[a] && cur[b] == prev[b]);
                assert(sampled_positions_spec((count - 1) as nat, sample)[a] < sampled_positions_spec((count - 1) as nat, sample)[b]);
            }
        }
    }
}

} // verus!
