//! News items: grouping fetched items into versions and planning their storage.

use vstd::prelude::*;

verus! {

/// The view of an optional string.
pub open spec fn opt_str(o: Option<String>) -> Option<Seq<char>> {
    match o {
        Some(s) => Some(s@),
        None => None,
    }
}

/// Whether two optional strings hold the same text.
pub fn opt_str_eq(a: &Option<String>, b: &Option<String>) -> (r: bool)
    ensures
        r == (opt_str(*a) == opt_str(*b)),
{
    match (a, b) {
        (Some(x), Some(y)) => *x == *y,
        (None, None) => true,
        _ => false,
    }
}

/// A copy of an optional string.
pub fn opt_str_clone(a: &Option<String>) -> (r: Option<String>)
    ensures
        r == *a,
{
    match a {
        Some(x) => Some(x.clone()),
        None => None,
    }
}

/// A news item as an informant delivers it.
#[derive(Debug, Clone, Hash, PartialEq, Eq)]
pub struct InputNews {
    pub source_provided_id: Option<String>,
    pub uri: Option<String>,
    pub title: String,
    pub summary: Option<String>,
    pub content: Option<String>,
    pub published_at: Option<i128>,
    pub updated_at: Option<i128>,
}

/// The mathematical value of an [`InputNews`].
pub ghost struct InputNewsView {
    pub source_provided_id: Option<Seq<char>>,
    pub uri: Option<Seq<char>>,
    pub title: Seq<char>,
    pub summary: Option<Seq<char>>,
    pub content: Option<Seq<char>>,
    pub published_at: Option<i128>,
    pub updated_at: Option<i128>,
}

impl View for InputNews {
    type V = InputNewsView;

    open spec fn view(&self) -> InputNewsView {
        InputNewsView {
            source_provided_id: opt_str(self.source_provided_id),
            uri: opt_str(self.uri),
            title: self.title@,
            summary: opt_str(self.summary),
            content: opt_str(self.content),
            published_at: self.published_at,
            updated_at: self.updated_at,
        }
    }
}

impl InputNews {
    /// Whether two items are the same in every field.
    pub fn same_as(&self, other: &InputNews) -> (r: bool)
        ensures
            r == (self@ == other@),
    {
        opt_str_eq(&self.source_provided_id, &other.source_provided_id) && opt_str_eq(&self.uri, &other.uri)
            && self.title == other.title && opt_str_eq(&self.summary, &other.summary) && opt_str_eq(
            &self.content,
            &other.content,
        ) && self.published_at == other.published_at && self.updated_at == other.updated_at
    }

    /// A copy of the item.
    pub fn duplicate(&self) -> (r: InputNews)
        ensures
            r == *self,
    {
        InputNews {
            source_provided_id: opt_str_clone(&self.source_provided_id),
            uri: opt_str_clone(&self.uri),
            title: self.title.clone(),
            summary: opt_str_clone(&self.summary),
            content: opt_str_clone(&self.content),
            published_at: self.published_at,
            updated_at: self.updated_at,
        }
    }
}

/// The views of a sequence of items.
pub open spec fn news_views(s: Seq<InputNews>) -> Seq<InputNewsView> {
    s.map_values(|n: InputNews| n@)
}

/// Items that share a source-provided identifier (or all items without one), each distinct
/// item once.
pub struct NewsGroup {
    pub key: Option<String>,
    pub items: Vec<InputNews>,
}

/// The mathematical value of a [`NewsGroup`].
pub ghost struct NewsGroupView {
    pub key: Option<Seq<char>>,
    pub items: Seq<InputNewsView>,
}

impl View for NewsGroup {
    type V = NewsGroupView;

    open spec fn view(&self) -> NewsGroupView {
        NewsGroupView { key: opt_str(self.key), items: news_views(self.items@) }
    }
}

/// The views of a sequence of groups.
pub open spec fn group_views(s: Seq<NewsGroup>) -> Seq<NewsGroupView> {
    s.map_values(|g: NewsGroup| g@)
}

/// Whether some group of `gs` has the key `key`.
pub open spec fn has_group(gs: Seq<NewsGroupView>, key: Option<Seq<char>>) -> bool {
    exists|i: int| 0 <= i < gs.len() && #[trigger] gs[i].key == key
}

/// The index of the group of `gs` with the key `key`.
pub open spec fn group_index(gs: Seq<NewsGroupView>, key: Option<Seq<char>>) -> int {
    choose|i: int| 0 <= i < gs.len() && #[trigger] gs[i].key == key
}

/// `gs` after adding `item`: to the end of the group of its source-provided identifier unless
/// that group holds it already, or as a new last group.
pub open spec fn add_to_groups(gs: Seq<NewsGroupView>, item: InputNewsView) -> Seq<NewsGroupView> {
    let key = item.source_provided_id;
    if has_group(gs, key) {
        let i = group_index(gs, key);
        if gs[i].items.contains(item) {
            gs
        } else {
            gs.update(i, NewsGroupView { key, items: gs[i].items.push(item) })
        }
    } else {
        gs.push(NewsGroupView { key, items: seq![item] })
    }
}

/// The groups of `items`: one per source-provided identifier (including none), in the order
/// the identifiers first occur, each holding the distinct items of that identifier in the
/// order they first occur.
pub open spec fn group_spec(items: Seq<InputNewsView>) -> Seq<NewsGroupView>
    decreases items.len(),
{
    if items.len() == 0 {
        Seq::empty()
    } else {
        add_to_groups(group_spec(items.drop_last()), items.last())
    }
}

/// Whether the keys of `gs` are pairwise distinct.
pub open spec fn distinct_keys(gs: Seq<NewsGroupView>) -> bool {
    forall|i: int, j: int| 0 <= i < j < gs.len() ==> gs[i].key != gs[j].key
}

/// Whether the groups `gs` are well-formed: distinct keys, no empty group, each item carrying
/// its group's key, no item twice in a group.
pub open spec fn groups_wf(gs: Seq<NewsGroupView>) -> bool {
    &&& distinct_keys(gs)
    &&& forall|i: int| 0 <= i < gs.len() ==> #[trigger] gs[i].items.len() > 0
    &&& forall|i: int, j: int|
        0 <= i < gs.len() && 0 <= j < gs[i].items.len() ==> #[trigger] gs[i].items[j].source_provided_id == gs[i].key
    &&& forall|i: int, a: int, b: int|
        0 <= i < gs.len() && 0 <= a < b < gs[i].items.len() ==> #[trigger] gs[i].items[a] != #[trigger] gs[i].items[b]
}

/// Grouping yields well-formed groups that hold exactly the fetched items: every item is in the
/// group of its source-provided identifier, and every grouped item was fetched.
pub proof fn law_grouping(items: Seq<InputNewsView>)
    ensures
        groups_wf(group_spec(items)),
        forall|n: int| 0 <= n < items.len() ==> {
            let gs = group_spec(items);
            &&& has_group(gs, #[trigger] items[n].source_provided_id)
            &&& gs[group_index(gs, items[n].source_provided_id)].items.contains(items[n])
        },
        forall|i: int, j: int|
            0 <= i < group_spec(items).len() && 0 <= j < group_spec(items)[i].items.len() ==> items.contains(
                #[trigger] group_spec(items)[i].items[j],
            ),
    decreases items.len(),
{
    if items.len() > 0 {
        let init = items.drop_last();
        let x = items.last();
        law_grouping(init);
        let gs0 = group_spec(init);
        let gs = group_spec(items);
        assert(gs == add_to_groups(gs0, x));
        let key = x.source_provided_id;
        if has_group(gs0, key) {
            let gi = group_index(gs0, key);
            assert forall|i: int, j: int| 0 <= i < gs.len() && 0 <= j < gs[i].items.len() implies #[trigger] gs[i].items[j].source_provided_id == gs[i].key by {
                if i == gi && !gs0[gi].items.contains(x) && j == gs0[gi].items.len() {
                } else {
                    assert(gs[i].items[j] == gs0[i].items[j]);
                }
            }
            assert forall|i: int, a: int, b: int| 0 <= i < gs.len() && 0 <= a < b < gs[i].items.len() implies #[trigger] gs[i].items[a] != #[trigger] gs[i].items[b] by {
                if i == gi && !gs0[gi].items.contains(x) && b == gs0[gi].items.len() {
                    assert(gs[i].items[a] == gs0[i].items[a]);
                    assert(gs0[gi].items[a] != x);
                } else {
                    assert(gs[i].items[a] == gs0[i].items[a]);
                    assert(gs[i].items[b] == gs0[i].items[b]);
                }
            }
            assert forall|n: int| 0 <= n < items.len() implies {
                &&& has_group(gs, #[trigger] items[n].source_provided_id)
                &&& gs[group_index(gs, items[n].source_provided_id)].items.contains(items[n])
            } by {
                let k = items[n].source_provided_id;
                if n < items.len() - 1 {
                    assert(init[n] == items[n]);
                    let i0 = group_index(gs0, k);
                    assert(gs[i0].key == k);
                    assert(has_group(gs, k));
                    let i1 = group_index(gs, k);
                    assert(i1 == i0);
                    let c = choose|c: int| 0 <= c < gs0[i0].items.len() && gs0[i0].items[c] == items[n];
                    assert(gs[i0].items[c] == items[n]);
                } else {
                    assert(gs[gi].key == k);
                    let i1 = group_index(gs, k);
                    assert(i1 == gi);
                    if gs0[gi].items.contains(x) {
                    } else {
                        assert(gs[gi].items[gs0[gi].items.len() as int] == x);
                    }
                }
            }
            assert forall|i: int, j: int| 0 <= i < gs.len() && 0 <= j < gs[i].items.len() implies items.contains(#[trigger] gs[i].items[j]) by {
                if i == gi && !gs0[gi].items.contains(x) && j == gs0[gi].items.len() {
                    assert(items[items.len() - 1] == x);
                } else {
                    assert(gs[i].items[j] == gs0[i].items[j]);
                    let c = choose|c: int| 0 <= c < init.len() && init[c] == gs0[i].items[j];
                    assert(items[c] == init[c]);
                }
            }
        } else {
            assert forall|n: int| 0 <= n < items.len() implies {
                &&& has_group(gs, #[trigger] items[n].source_provided_id)
                &&& gs[group_index(gs, items[n].source_provided_id)].items.contains(items[n])
            } by {
                let k = items[n].source_provided_id;
                if n < items.len() - 1 {
                    assert(init[n] == items[n]);
                    let i0 = group_index(gs0, k);
                    assert(gs[i0] == gs0[i0]);
                    assert(has_group(gs, k));
                    let i1 = group_index(gs, k);
                    assert(i1 == i0);
                } else {
                    let last = gs0.len() as int;
                    assert(gs[last].key == k);
                    let i1 = group_index(gs, k);
                    assert(i1 == last);
                    assert(gs[last].items[0] == x);
                }
            }
            assert forall|i: int, j: int| 0 <= i < gs.len() && 0 <= j < gs[i].items.len() implies items.contains(#[trigger] gs[i].items[j]) by {
                if i == gs0.len() {
                    assert(items[items.len() - 1] == x);
                } else {
                    assert(gs[i] == gs0[i]);
                    let c = choose|c: int| 0 <= c < init.len() && init[c] == gs0[i].items[j];
                    assert(items[c] == init[c]);
                }
            }
        }
    }
}

/// Whether `v` holds `x`.
fn contains_news(v: &Vec<InputNews>, x: &InputNews) -> (r: bool)
    ensures
        r == news_views(v@).contains(x@),
{
    let mut i: usize = 0;
    while i < v.len()
        invariant
            i <= v@.len(),
            forall|a: int| 0 <= a < i ==> v@[a]@ != x@,
        decreases v@.len() - i,
    {
        if v[i].same_as(x) {
            assert(news_views(v@)[i as int] == x@);
            return true;
        }
        i = i + 1;
    }
    assert(!news_views(v@).contains(x@)) by {
        if news_views(v@).contains(x@) {
            let a = choose|a: int| 0 <= a < news_views(v@).len() && news_views(v@)[a] == x@;
            assert(v@[a]@ == x@);
        }
    }
    false
}

/// Groups fetched items by their source-provided identifier, dropping repeated items.
pub fn group_news(items: &Vec<InputNews>) -> (groups: Vec<NewsGroup>)
    ensures
        group_views(groups@) == group_spec(news_views(items@)),
        distinct_keys(group_views(groups@)),
{
    let mut groups: Vec<NewsGroup> = Vec::new();
    let mut n: usize = 0;
    while n < items.len()
        invariant
            n <= items@.len(),
            group_views(groups@) == group_spec(news_views(items@).take(n as int)),
            distinct_keys(group_views(groups@)),
        decreases items@.len() - n,
    {
        let item = &items[n];
        let ghost gs = group_views(groups@);
        proof {
            assert(news_views(items@).take(n + 1).drop_last() =~= news_views(items@).take(n as int));
            assert(news_views(items@).take(n + 1).last() == item@);
        }
        let mut g: usize = 0;
        let mut found = false;
        while g < groups.len() && !found
            invariant
                g <= groups@.len(),
                gs == group_views(groups@),
                found ==> g < groups@.len() && gs[g as int].key == item@.source_provided_id,
                forall|a: int| 0 <= a < g ==> gs[a].key != item@.source_provided_id,
            decreases groups@.len() - g, (if found { 0int } else { 1int }),
        {
            if opt_str_eq(&groups[g].key, &item.source_provided_id) {
                found = true;
            } else {
                g = g + 1;
            }
        }
        if found {
            proof {
                let i = group_index(gs, item@.source_provided_id);
                assert(has_group(gs, item@.source_provided_id));
                assert(i == g);
            }
            if !contains_news(&groups[g].items, item) {
                let mut grp = groups.remove(g);
                grp.items.push(item.duplicate());
                groups.insert(g, grp);
                proof {
                    assert(news_views(grp.items@) =~= gs[g as int].items.push(item@));
                    assert(group_views(groups@) =~= add_to_groups(gs, item@));
                }
            }
        } else {
            proof {
                assert(!has_group(gs, item@.source_provided_id));
            }
            let mut v: Vec<InputNews> = Vec::new();
            v.push(item.duplicate());
            let grp = NewsGroup { key: opt_str_clone(&item.source_provided_id), items: v };
            groups.push(grp);
            proof {
                assert(news_views(v@) =~= seq![item@]);
                assert(group_views(groups@) =~= add_to_groups(gs, item@));
            }
        }
        n = n + 1;
    }
    assert(news_views(items@).take(items@.len() as int) =~= news_views(items@));
    groups
}


/// The outcome of adding a batch of fetched news items.
#[derive(Debug, Clone)]
pub struct AddingNewsOutput {
    /// Newly added news items or new versions of existing ones.
    pub new: Vec<u128>,
    /// Were seen again in the feed without any change or there is a newer version of them
    /// identified in `new`.
    pub touched: Vec<u128>,
    /// Time of latest publication in news items.
    pub latest_publish: Option<i128>,
    /// Time of oldest publication in news items.
    pub oldest_publish: Option<i128>,
}

/// Publication bounds `(oldest, latest)` after taking an item published at `published` into
/// account.
pub open spec fn update_bounds_spec(oldest: Option<i128>, latest: Option<i128>, published: Option<i128>) -> (
    Option<i128>,
    Option<i128>,
) {
    match published {
        Some(p) => {
            if latest is Some && p > latest->0 {
                (oldest, Some(p))
            } else if oldest is Some && p < oldest->0 {
                (Some(p), latest)
            } else if oldest is None && latest is None {
                (Some(p), Some(p))
            } else {
                (oldest, latest)
            }
        },
        None => (oldest, latest),
    }
}

impl AddingNewsOutput {
    /// Widens the publication bounds to an item published at `published`.
    pub fn update_publish_bounds(&mut self, published: Option<i128>)
        ensures
            final(self).new == old(self).new,
            final(self).touched == old(self).touched,
            (final(self).oldest_publish, final(self).latest_publish) == update_bounds_spec(
                old(self).oldest_publish,
                old(self).latest_publish,
                published,
            ),
    {
        match (published, self.oldest_publish, self.latest_publish) {
            (Some(p), _, Some(l)) if p > l => {
                self.latest_publish = published;
            },
            (Some(p), Some(o), _) if p < o => {
                self.oldest_publish = published;
            },
            (Some(_), None, None) => {
                self.oldest_publish = published;
                self.latest_publish = published;
            },
            _ => {},
        }
    }
}

/// The key versions are ordered by: the update time, else the publication time.
pub open spec fn version_key(v: InputNewsView) -> Option<i128> {
    match v.updated_at {
        Some(t) => Some(t),
        None => v.published_at,
    }
}

/// The order of optional times: `None` first, then by time.
pub open spec fn key_le(a: Option<i128>, b: Option<i128>) -> bool {
    match (a, b) {
        (None, _) => true,
        (Some(_), None) => false,
        (Some(x), Some(y)) => x <= y,
    }
}

/// `s` with `x` inserted after every element whose key is not greater than the key of `x`.
pub open spec fn sorted_insert(s: Seq<InputNewsView>, x: InputNewsView) -> Seq<InputNewsView>
    decreases s.len(),
{
    if s.len() == 0 {
        seq![x]
    } else if key_le(version_key(s.last()), version_key(x)) {
        s.push(x)
    } else {
        sorted_insert(s.drop_last(), x).push(s.last())
    }
}

/// The items ordered by [`version_key`], items with equal keys keeping their order.
pub open spec fn sort_spec(s: Seq<InputNewsView>) -> Seq<InputNewsView>
    decreases s.len(),
{
    if s.len() == 0 {
        Seq::empty()
    } else {
        sorted_insert(sort_spec(s.drop_last()), s.last())
    }
}

/// Whether `s` is ordered by [`version_key`].
pub open spec fn sorted_by_version(s: Seq<InputNewsView>) -> bool {
    forall|i: int, j: int| 0 <= i < j < s.len() ==> key_le(version_key(s[i]), version_key(s[j]))
}

/// The key of an item's versions order.
fn version_key_of(v: &InputNews) -> (r: Option<i128>)
    ensures
        r == version_key(v@),
{
    match v.updated_at {
        Some(t) => Some(t),
        None => v.published_at,
    }
}

/// Whether `a` comes no later than `b` in the versions order.
fn key_le_exec(a: Option<i128>, b: Option<i128>) -> (r: bool)
    ensures
        r == key_le(a, b),
{
    match (a, b) {
        (None, _) => true,
        (Some(_), None) => false,
        (Some(x), Some(y)) => x <= y,
    }
}

proof fn lemma_sorted_insert_len(s: Seq<InputNewsView>, x: InputNewsView)
    ensures
        sorted_insert(s, x).len() == s.len() + 1,
    decreases s.len(),
{
    if s.len() > 0 && !key_le(version_key(s.last()), version_key(x)) {
        lemma_sorted_insert_len(s.drop_last(), x);
    }
}

/// `sorted_insert` puts `x` at the first position whose element is strictly greater than `x`,
/// when every later element is greater too.
proof fn lemma_sorted_insert_at(s: Seq<InputNewsView>, x: InputNewsView, p: int)
    requires
        0 <= p <= s.len(),
        p == 0 || key_le(version_key(s[p - 1]), version_key(x)),
        forall|i: int| p <= i < s.len() ==> !key_le(version_key(#[trigger] s[i]), version_key(x)),
    ensures
        sorted_insert(s, x) == s.take(p).push(x) + s.skip(p),
    decreases s.len(),
{
    if s.len() == 0 {
        assert(s.take(p).push(x) + s.skip(p) =~= seq![x]);
    } else if key_le(version_key(s.last()), version_key(x)) {
        assert(p == s.len());
        assert(s.take(p).push(x) + s.skip(p) =~= s.push(x));
    } else {
        let init = s.drop_last();
        assert(p < s.len());
        lemma_sorted_insert_at(init, x, p);
        assert(init.take(p).push(x) + init.skip(p) + seq![s.last()] =~= s.take(p).push(x) + s.skip(p));
    }
}

/// Every element of `sorted_insert(s, x)` is `x` or an element of `s`.
proof fn lemma_sorted_insert_elements(s: Seq<InputNewsView>, x: InputNewsView)
    ensures
        forall|k: int|
            0 <= k < sorted_insert(s, x).len() ==> #[trigger] sorted_insert(s, x)[k] == x || s.contains(
                sorted_insert(s, x)[k],
            ),
    decreases s.len(),
{
    lemma_sorted_insert_len(s, x);
    if s.len() > 0 && !key_le(version_key(s.last()), version_key(x)) {
        let init = s.drop_last();
        lemma_sorted_insert_elements(init, x);
        lemma_sorted_insert_len(init, x);
        let r = sorted_insert(s, x);
        assert forall|k: int| 0 <= k < r.len() implies #[trigger] r[k] == x || s.contains(r[k]) by {
            if k == r.len() - 1 {
                assert(r[k] == s[s.len() - 1]);
            } else {
                assert(r[k] == sorted_insert(init, x)[k]);
                if r[k] != x {
                    let m = choose|m: int| 0 <= m < init.len() && init[m] == r[k];
                    assert(s[m] == r[k]);
                }
            }
        }
    } else if s.len() > 0 {
        let r = sorted_insert(s, x);
        assert forall|k: int| 0 <= k < r.len() implies #[trigger] r[k] == x || s.contains(r[k]) by {
            if k < s.len() {
                assert(r[k] == s[k]);
            }
        }
    }
}

/// Inserting into an ordered sequence keeps it ordered, and adds exactly the inserted item.
proof fn lemma_sorted_insert_sorted(s: Seq<InputNewsView>, x: InputNewsView)
    requires
        sorted_by_version(s),
    ensures
        sorted_by_version(sorted_insert(s, x)),
        sorted_insert(s, x).to_multiset() =~= s.to_multiset().insert(x),
    decreases s.len(),
{
    broadcast use vstd::seq_lib::group_to_multiset_ensures;

    lemma_sorted_insert_len(s, x);
    if s.len() == 0 {
        assert(seq![x] =~= Seq::<InputNewsView>::empty().push(x));
    } else if key_le(version_key(s.last()), version_key(x)) {
        let r = sorted_insert(s, x);
        assert forall|i: int, j: int| 0 <= i < j < r.len() implies key_le(version_key(r[i]), version_key(r[j])) by {
            if j == s.len() {
                assert(key_le(version_key(s[i]), version_key(s[s.len() - 1])) || i == s.len() - 1);
            }
        }
    } else {
        let init = s.drop_last();
        let last = s.last();
        assert(sorted_by_version(init));
        lemma_sorted_insert_sorted(init, x);
        lemma_sorted_insert_elements(init, x);
        lemma_sorted_insert_len(init, x);
        let r0 = sorted_insert(init, x);
        let r = sorted_insert(s, x);
        assert forall|i: int, j: int| 0 <= i < j < r.len() implies key_le(version_key(r[i]), version_key(r[j])) by {
            if j == r.len() - 1 {
                assert(r[j] == last);
                assert(r[i] == r0[i]);
                if r0[i] != x {
                    let m = choose|m: int| 0 <= m < init.len() && init[m] == r0[i];
                    assert(s[m] == r0[i]);
                }
            } else {
                assert(r[i] == r0[i] && r[j] == r0[j]);
            }
        }
        assert(init.push(last) =~= s);
        assert(r0.push(last).to_multiset() =~= r0.to_multiset().insert(last));
        assert(init.push(last).to_multiset() =~= init.to_multiset().insert(last));
    }
}

/// Versions are ordered oldest first (by update time, else publication time, unknown times
/// first), and ordering them keeps exactly the items it was given.
pub proof fn law_versions_sorted(s: Seq<InputNewsView>)
    ensures
        sorted_by_version(sort_spec(s)),
        sort_spec(s).to_multiset() =~= s.to_multiset(),
    decreases s.len(),
{
    broadcast use vstd::seq_lib::group_to_multiset_ensures;

    if s.len() > 0 {
        law_versions_sorted(s.drop_last());
        lemma_sorted_insert_sorted(sort_spec(s.drop_last()), s.last());
        assert(s.drop_last().push(s.last()) =~= s);
    } else {
        assert(s.to_multiset() =~= vstd::multiset::Multiset::empty());
        assert(sort_spec(s).to_multiset() =~= vstd::multiset::Multiset::empty());
    }
}

/// The items ordered by their versions key, items with equal keys keeping their order.
pub fn sort_versions(items: &Vec<InputNews>) -> (r: Vec<InputNews>)
    ensures
        news_views(r@) == sort_spec(news_views(items@)),
{
    let mut sorted: Vec<InputNews> = Vec::new();
    let mut n: usize = 0;
    while n < items.len()
        invariant
            n <= items@.len(),
            news_views(sorted@) == sort_spec(news_views(items@).take(n as int)),
        decreases items@.len() - n,
    {
        let x = items[n].duplicate();
        let kx = version_key_of(&x);
        let ghost before = news_views(sorted@);
        let mut p: usize = sorted.len();
        while p > 0 && !key_le_exec(version_key_of(&sorted[p - 1]), kx)
            invariant
                p <= sorted@.len(),
                before == news_views(sorted@),
                kx == version_key(x@),
                forall|i: int| p <= i < sorted@.len() ==> !key_le(version_key(#[trigger] before[i]), version_key(x@)),
            decreases p,
        {
            assert(before[p - 1] == sorted@[p - 1]@);
            p = p - 1;
        }
        assert(p > 0 ==> before[p - 1] == sorted@[p - 1]@);
        sorted.insert(p, x);
        proof {
            lemma_sorted_insert_at(before, x@, p as int);
            assert(news_views(sorted@) =~= before.take(p as int).push(x@) + before.skip(p as int));
            assert(news_views(items@).take(n + 1).drop_last() =~= news_views(items@).take(n as int));
            assert(news_views(items@).take(n + 1).last() == x@);
        }
        n = n + 1;
    }
    assert(news_views(items@).take(items@.len() as int) =~= news_views(items@));
    sorted
}


/// A news item as it is stored.
#[derive(Debug, Clone)]
pub struct NewsRecord {
    pub id: u128,
    pub source: u128,
    pub source_provided_id: Option<String>,
    pub is_latest_version: bool,
    pub previous_version: Option<u128>,
    pub uri: Option<String>,
    pub title: String,
    pub summary: Option<String>,
    pub content: Option<String>,
    pub published_at: Option<i128>,
    pub updated_at: Option<i128>,
    pub first_fetched_at: i128,
    pub last_fetched_at: i128,
    pub is_read: bool,
}

/// The mathematical value of a [`NewsRecord`].
pub ghost struct NewsRecordView {
    pub id: u128,
    pub source: u128,
    pub source_provided_id: Option<Seq<char>>,
    pub is_latest_version: bool,
    pub previous_version: Option<u128>,
    pub uri: Option<Seq<char>>,
    pub title: Seq<char>,
    pub summary: Option<Seq<char>>,
    pub content: Option<Seq<char>>,
    pub published_at: Option<i128>,
    pub updated_at: Option<i128>,
    pub first_fetched_at: i128,
    pub last_fetched_at: i128,
    pub is_read: bool,
}

impl View for NewsRecord {
    type V = NewsRecordView;

    open spec fn view(&self) -> NewsRecordView {
        NewsRecordView {
            id: self.id,
            source: self.source,
            source_provided_id: opt_str(self.source_provided_id),
            is_latest_version: self.is_latest_version,
            previous_version: self.previous_version,
            uri: opt_str(self.uri),
            title: self.title@,
            summary: opt_str(self.summary),
            content: opt_str(self.content),
            published_at: self.published_at,
            updated_at: self.updated_at,
            first_fetched_at: self.first_fetched_at,
            last_fetched_at: self.last_fetched_at,
            is_read: self.is_read,
        }
    }
}

/// The record that stores `item` under `id`, fetched for the first time at `now`, unread.
pub open spec fn record_of(
    item: InputNewsView,
    id: u128,
    source: u128,
    is_latest: bool,
    previous: Option<u128>,
    now: i128,
) -> NewsRecordView {
    NewsRecordView {
        id,
        source,
        source_provided_id: item.source_provided_id,
        is_latest_version: is_latest,
        previous_version: previous,
        uri: item.uri,
        title: item.title,
        summary: item.summary,
        content: item.content,
        published_at: item.published_at,
        updated_at: item.updated_at,
        first_fetched_at: now,
        last_fetched_at: now,
        is_read: false,
    }
}

/// The record that stores `item` under `id`.
fn make_record(
    item: &InputNews,
    id: u128,
    source: u128,
    is_latest: bool,
    previous: Option<u128>,
    now: i128,
) -> (r: NewsRecord)
    ensures
        r@ == record_of(item@, id, source, is_latest, previous, now),
{
    NewsRecord {
        id,
        source,
        source_provided_id: opt_str_clone(&item.source_provided_id),
        is_latest_version: is_latest,
        previous_version: previous,
        uri: opt_str_clone(&item.uri),
        title: item.title.clone(),
        summary: opt_str_clone(&item.summary),
        content: opt_str_clone(&item.content),
        published_at: item.published_at,
        updated_at: item.updated_at,
        first_fetched_at: now,
        last_fetched_at: now,
        is_read: false,
    }
}

/// The latest stored version of a news item.
#[derive(Debug, Clone)]
pub struct StoredNews {
    pub id: u128,
    pub uri: Option<String>,
    pub title: String,
    pub summary: Option<String>,
    pub content: Option<String>,
    pub published_at: Option<i128>,
    pub updated_at: Option<i128>,
}

/// The mathematical value of a [`StoredNews`].
pub ghost struct StoredNewsView {
    pub id: u128,
    pub uri: Option<Seq<char>>,
    pub title: Seq<char>,
    pub summary: Option<Seq<char>>,
    pub content: Option<Seq<char>>,
    pub published_at: Option<i128>,
    pub updated_at: Option<i128>,
}

impl View for StoredNews {
    type V = StoredNewsView;

    open spec fn view(&self) -> StoredNewsView {
        StoredNewsView {
            id: self.id,
            uri: opt_str(self.uri),
            title: self.title@,
            summary: opt_str(self.summary),
            content: opt_str(self.content),
            published_at: self.published_at,
            updated_at: self.updated_at,
        }
    }
}

/// Whether a stored version and a fetched item hold the same news.
pub open spec fn unchanged(p: StoredNewsView, v: InputNewsView) -> bool {
    &&& p.published_at == v.published_at
    &&& p.updated_at == v.updated_at
    &&& p.uri == v.uri
    &&& p.title == v.title
    &&& p.summary == v.summary
    &&& p.content == v.content
}

impl StoredNews {
    /// Whether this stored version holds the same news as `v`.
    pub fn is_unchanged(&self, v: &InputNews) -> (r: bool)
        ensures
            r == unchanged(self@, v@),
    {
        self.published_at == v.published_at && self.updated_at == v.updated_at && opt_str_eq(
            &self.uri,
            &v.uri,
        ) && self.title == v.title && opt_str_eq(&self.summary, &v.summary) && opt_str_eq(
            &self.content,
            &v.content,
        )
    }
}

/// What the database holds already of a group of fetched items.
pub enum GroupLookup {
    /// For each item of a group without source-provided identifier, in order: the identifier of
    /// a stored latest version equal to it, if there is one.
    Unversioned(Vec<Option<u128>>),
    /// For a group with a source-provided identifier: its latest stored version, if there is
    /// one.
    Versioned(Option<StoredNews>),
}

/// The mathematical value of a [`GroupLookup`].
pub ghost enum GroupLookupView {
    Unversioned(Seq<Option<u128>>),
    Versioned(Option<StoredNewsView>),
}

impl View for GroupLookup {
    type V = GroupLookupView;

    open spec fn view(&self) -> GroupLookupView {
        match self {
            GroupLookup::Unversioned(v) => GroupLookupView::Unversioned(v@),
            GroupLookup::Versioned(p) => GroupLookupView::Versioned(
                match p {
                    Some(n) => Some(n@),
                    None => None,
                },
            ),
        }
    }
}

/// Whether a lookup answers for a group.
pub open spec fn lookup_fits(g: NewsGroupView, l: GroupLookupView) -> bool {
    match l {
        GroupLookupView::Unversioned(es) => g.key is None && es.len() == g.items.len(),
        GroupLookupView::Versioned(_) => g.key is Some,
    }
}

/// The state of planning a batch of news items.
pub ghost struct PlanState {
    pub inserts: Seq<NewsRecordView>,
    pub refresh: Seq<u128>,
    pub demote: Seq<u128>,
    pub new: Seq<u128>,
    pub touched: Seq<u128>,
    pub oldest: Option<i128>,
    pub latest: Option<i128>,
    pub used: nat,
    pub prev: Option<u128>,
}

/// Nothing planned yet.
pub open spec fn initial_plan() -> PlanState {
    PlanState {
        inserts: Seq::empty(),
        refresh: Seq::empty(),
        demote: Seq::empty(),
        new: Seq::empty(),
        touched: Seq::empty(),
        oldest: None,
        latest: None,
        used: 0,
        prev: None,
    }
}

/// `st` after planning to insert `rec`, which consumes one fresh identifier.
pub open spec fn insert_step(st: PlanState, rec: NewsRecordView) -> PlanState {
    let b = update_bounds_spec(st.oldest, st.latest, rec.published_at);
    PlanState {
        inserts: st.inserts.push(rec),
        new: st.new.push(rec.id),
        oldest: b.0,
        latest: b.1,
        used: st.used + 1,
        ..st
    }
}

/// `st` after finding the stored news `id` unchanged: its fetch time is refreshed and it
/// counts as touched.
pub open spec fn touch_step(st: PlanState, id: u128) -> PlanState {
    PlanState { refresh: st.refresh.push(id), touched: st.touched.push(id), ..st }
}

/// `st` after an item without source-provided identifier: touched when stored already (as
/// `existing`), else inserted under the next fresh identifier.
pub open spec fn unversioned_step(
    st: PlanState,
    source: u128,
    item: InputNewsView,
    existing: Option<u128>,
    ids: Seq<u128>,
    now: i128,
) -> PlanState {
    match existing {
        Some(id) => touch_step(st, id),
        None => insert_step(st, record_of(item, ids[st.used as int], source, true, None, now)),
    }
}

/// `st` after the items without source-provided identifier.
pub open spec fn unversioned_fold(
    st: PlanState,
    source: u128,
    items: Seq<InputNewsView>,
    existing: Seq<Option<u128>>,
    ids: Seq<u128>,
    now: i128,
) -> PlanState
    decreases items.len(),
{
    if items.len() == 0 {
        st
    } else {
        unversioned_step(
            unversioned_fold(st, source, items.drop_last(), existing, ids, now),
            source,
            items.last(),
            existing[items.len() - 1],
            ids,
            now,
        )
    }
}

/// `st` after inserting the version `item`, number `index` of `total` new versions: it links to
/// the previous version, and a stored previous version stops being the latest one.
pub open spec fn version_step(
    st: PlanState,
    source: u128,
    item: InputNewsView,
    total: int,
    index: int,
    ids: Seq<u128>,
    now: i128,
) -> PlanState {
    let id = ids[st.used as int];
    let is_latest = index == total - 1;
    let st1 = insert_step(st, record_of(item, id, source, is_latest, st.prev, now));
    let st2 = match st.prev {
        Some(pid) => if !st1.new.contains(pid) {
            PlanState { demote: st1.demote.push(pid), touched: st1.touched.push(pid), ..st1 }
        } else {
            st1
        },
        None => st1,
    };
    PlanState { prev: if is_latest { None } else { Some(id) }, ..st2 }
}

/// `st` after inserting the new versions `items` of `total`.
pub open spec fn versions_fold(
    st: PlanState,
    source: u128,
    items: Seq<InputNewsView>,
    total: int,
    ids: Seq<u128>,
    now: i128,
) -> PlanState
    decreases items.len(),
{
    if items.len() == 0 {
        st
    } else {
        version_step(
            versions_fold(st, source, items.drop_last(), total, ids, now),
            source,
            items.last(),
            total,
            items.len() - 1,
            ids,
            now,
        )
    }
}

/// `st` after the versions `sorted` (ordered oldest first) of one source-provided identifier,
/// whose latest stored version is `previous`: a stored version equal to the oldest fetched one
/// is touched rather than stored again, and the others become new versions chained after it.
pub open spec fn versioned_plan(
    st: PlanState,
    source: u128,
    sorted: Seq<InputNewsView>,
    previous: Option<StoredNewsView>,
    ids: Seq<u128>,
    now: i128,
) -> PlanState {
    let matched = previous is Some && unchanged(previous->0, sorted[0]);
    let st1 = if matched { touch_step(st, previous->0.id) } else { st };
    let rest = if matched { sorted.drop_first() } else { sorted };
    let st2 = PlanState {
        prev: match previous {
            Some(p) => Some(p.id),
            None => None,
        },
        ..st1
    };
    let st3 = versions_fold(st2, source, rest, rest.len() as int, ids, now);
    PlanState { prev: None, ..st3 }
}

/// `st` after one group and the database's answer for it.
pub open spec fn group_plan(
    st: PlanState,
    source: u128,
    g: NewsGroupView,
    l: GroupLookupView,
    ids: Seq<u128>,
    now: i128,
) -> PlanState {
    match l {
        GroupLookupView::Unversioned(es) => unversioned_fold(st, source, g.items, es, ids, now),
        GroupLookupView::Versioned(p) => versioned_plan(st, source, sort_spec(g.items), p, ids, now),
    }
}

/// The plan for the groups `gs` answered by `ls`.
pub open spec fn plan_spec(
    source: u128,
    gs: Seq<NewsGroupView>,
    ls: Seq<GroupLookupView>,
    ids: Seq<u128>,
    now: i128,
) -> PlanState
    decreases gs.len(),
{
    if gs.len() == 0 {
        initial_plan()
    } else {
        group_plan(
            plan_spec(source, gs.drop_last(), ls, ids, now),
            source,
            gs.last(),
            ls[gs.len() - 1],
            ids,
            now,
        )
    }
}

/// The number of items of the groups `gs`.
pub open spec fn total_items(gs: Seq<NewsGroupView>) -> nat
    decreases gs.len(),
{
    if gs.len() == 0 {
        0
    } else {
        total_items(gs.drop_last()) + gs.last().items.len()
    }
}

/// The database writes and the outcome of adding a batch of news items.
pub struct NewsAdditionPlan {
    /// New records to insert.
    pub inserts: Vec<NewsRecord>,
    /// Stored news seen again unchanged, whose last fetch time becomes the time of the batch.
    pub refresh: Vec<u128>,
    /// Stored news that stop being the latest version.
    pub demote: Vec<u128>,
    /// The outcome to report.
    pub output: AddingNewsOutput,
}

/// A plan under construction.
struct PlanBuilder {
    inserts: Vec<NewsRecord>,
    refresh: Vec<u128>,
    demote: Vec<u128>,
    output: AddingNewsOutput,
    used: usize,
    prev: Option<u128>,
}

impl View for PlanBuilder {
    type V = PlanState;

    closed spec fn view(&self) -> PlanState {
        PlanState {
            inserts: self.inserts@.map_values(|r: NewsRecord| r@),
            refresh: self.refresh@,
            demote: self.demote@,
            new: self.output.new@,
            touched: self.output.touched@,
            oldest: self.output.oldest_publish,
            latest: self.output.latest_publish,
            used: self.used as nat,
            prev: self.prev,
        }
    }
}


impl PlanBuilder {
    fn new() -> (r: Self)
        ensures
            r@ == initial_plan(),
    {
        let r = PlanBuilder {
            inserts: Vec::new(),
            refresh: Vec::new(),
            demote: Vec::new(),
            output: AddingNewsOutput {
                new: Vec::new(),
                touched: Vec::new(),
                latest_publish: None,
                oldest_publish: None,
            },
            used: 0,
            prev: None,
        };
        assert(r@.inserts =~= Seq::<NewsRecordView>::empty());
        r
    }

    fn used(&self) -> (r: usize)
        ensures
            r == self@.used,
    {
        self.used
    }

    fn prev(&self) -> (r: Option<u128>)
        ensures
            r == self@.prev,
    {
        self.prev
    }

    fn set_prev(&mut self, prev: Option<u128>)
        ensures
            final(self)@ == (PlanState { prev, ..old(self)@ }),
    {
        self.prev = prev;
    }

    fn insert(&mut self, rec: NewsRecord)
        requires
            old(self)@.used < usize::MAX,
        ensures
            final(self)@ == insert_step(old(self)@, rec@),
    {
        let ghost r = rec@;
        let published = rec.published_at;
        let id = rec.id;
        self.inserts.push(rec);
        self.output.new.push(id);
        self.output.update_publish_bounds(published);
        self.used = self.used + 1;
        assert(self@.inserts =~= old(self)@.inserts.push(r));
    }

    fn touch(&mut self, id: u128)
        ensures
            final(self)@ == touch_step(old(self)@, id),
    {
        self.refresh.push(id);
        self.output.touched.push(id);
    }

    fn is_new(&self, id: u128) -> (r: bool)
        ensures
            r == self@.new.contains(id),
    {
        let mut i: usize = 0;
        while i < self.output.new.len()
            invariant
                i <= self.output.new@.len(),
                forall|a: int| 0 <= a < i ==> self.output.new@[a] != id,
            decreases self.output.new@.len() - i,
        {
            if self.output.new[i] == id {
                return true;
            }
            i = i + 1;
        }
        false
    }

    fn demote(&mut self, id: u128)
        ensures
            final(self)@ == (PlanState {
                demote: old(self)@.demote.push(id),
                touched: old(self)@.touched.push(id),
                ..old(self)@
            }),
    {
        self.demote.push(id);
        self.output.touched.push(id);
    }

    fn add_unversioned(&mut self, source: u128, item: &InputNews, existing: Option<u128>, ids: &Vec<u128>, now: i128)
        requires
            existing is None ==> old(self)@.used < ids@.len(),
        ensures
            final(self)@ == unversioned_step(old(self)@, source, item@, existing, ids@, now),
    {
        match existing {
            Some(id) => self.touch(id),
            None => {
                proof { assert(self@.used < ids.len()); }
                let rec = make_record(item, ids[self.used], source, true, None, now);
                self.insert(rec);
            },
        }
    }

    fn add_version(
        &mut self,
        source: u128,
        item: &InputNews,
        total: usize,
        index: usize,
        ids: &Vec<u128>,
        now: i128,
    )
        requires
            old(self)@.used < ids@.len(),
        ensures
            final(self)@ == version_step(old(self)@, source, item@, total as int, index as int, ids@, now),
    {
        let id = ids[self.used];
        let is_latest = total > 0 && index == total - 1;
        let prev = self.prev();
        proof { assert(self@.used < ids.len()); }
        let rec = make_record(item, id, source, is_latest, prev, now);
        self.insert(rec);
        match prev {
            Some(pid) => {
                if !self.is_new(pid) {
                    self.demote(pid);
                }
            },
            None => {},
        }
        if is_latest {
            self.set_prev(None);
        } else {
            self.set_prev(Some(id));
        }
    }

    fn finish(self) -> (r: NewsAdditionPlan)
        ensures
            r.inserts@.map_values(|x: NewsRecord| x@) == self@.inserts,
            r.refresh@ == self@.refresh,
            r.demote@ == self@.demote,
            r.output.new@ == self@.new,
            r.output.touched@ == self@.touched,
            r.output.oldest_publish == self@.oldest,
            r.output.latest_publish == self@.latest,
    {
        NewsAdditionPlan { inserts: self.inserts, refresh: self.refresh, demote: self.demote, output: self.output }
    }
}

proof fn lemma_unversioned_used(
    st: PlanState,
    source: u128,
    items: Seq<InputNewsView>,
    existing: Seq<Option<u128>>,
    ids: Seq<u128>,
    now: i128,
)
    ensures
        st.used <= unversioned_fold(st, source, items, existing, ids, now).used <= st.used + items.len(),
    decreases items.len(),
{
    if items.len() > 0 {
        lemma_unversioned_used(st, source, items.drop_last(), existing, ids, now);
    }
}

proof fn lemma_versions_used(
    st: PlanState,
    source: u128,
    items: Seq<InputNewsView>,
    total: int,
    ids: Seq<u128>,
    now: i128,
)
    ensures
        versions_fold(st, source, items, total, ids, now).used == st.used + items.len(),
    decreases items.len(),
{
    if items.len() > 0 {
        lemma_versions_used(st, source, items.drop_last(), total, ids, now);
    }
}

/// The records that inserting the versions `items` (of `total`) appends: each under the next
/// fresh identifier, linked to the version before it (the first to `st.prev`), the version
/// number `total - 1` being the latest.
pub(crate) proof fn lemma_versions_chain(
    st: PlanState,
    source: u128,
    items: Seq<InputNewsView>,
    total: int,
    ids: Seq<u128>,
    now: i128,
)
    requires
        items.len() <= total,
    ensures
        ({
            let r = versions_fold(st, source, items, total, ids, now);
            let n = st.inserts.len() as int;
            &&& r.used == st.used + items.len()
            &&& r.inserts.len() == n + items.len()
            &&& forall|j: int| 0 <= j < n ==> r.inserts[j] == st.inserts[j]
            &&& forall|j: int|
                0 <= j < items.len() ==> #[trigger] r.inserts[n + j] == record_of(
                    items[j],
                    ids[st.used + j],
                    source,
                    j == total - 1,
                    if j == 0 {
                        st.prev
                    } else {
                        Some(ids[st.used + j - 1])
                    },
                    now,
                )
            &&& r.prev == (if items.len() == 0 {
                st.prev
            } else if items.len() == total {
                None
            } else {
                Some(ids[st.used + items.len() - 1])
            })
        }),
    decreases items.len(),
{
    if items.len() > 0 {
        let init = items.drop_last();
        lemma_versions_chain(st, source, init, total, ids, now);
        let r0 = versions_fold(st, source, init, total, ids, now);
        let r = versions_fold(st, source, items, total, ids, now);
        let n = st.inserts.len() as int;
        let k = init.len() as int;
        assert(r.inserts[n + k] == record_of(items[k], ids[st.used + k], source, k == total - 1, r0.prev, now));
        assert forall|j: int| 0 <= j < items.len() implies #[trigger] r.inserts[n + j] == record_of(
            items[j],
            ids[st.used + j],
            source,
            j == total - 1,
            if j == 0 {
                st.prev
            } else {
                Some(ids[st.used + j - 1])
            },
            now,
        ) by {
            if j < k {
                assert(r.inserts[n + j] == r0.inserts[n + j]);
                assert(items[j] == init[j]);
            }
        }
        assert forall|j: int| 0 <= j < n implies r.inserts[j] == st.inserts[j] by {
            assert(r.inserts[j] == r0.inserts[j]);
        }
    }
}

/// The new versions of one source-provided identifier form a linear history: each new record
/// links to the record inserted before it, the first to the stored latest version (if any), and
/// only the last one is the latest version.
pub proof fn law_versions_form_a_chain(
    st: PlanState,
    source: u128,
    sorted: Seq<InputNewsView>,
    previous: Option<StoredNewsView>,
    ids: Seq<u128>,
    now: i128,
)
    requires
        sorted.len() > 0,
    ensures
        ({
            let matched = previous is Some && unchanged(previous->0, sorted[0]);
            let fresh = if matched { sorted.len() - 1 } else { sorted.len() as int };
            let r = versioned_plan(st, source, sorted, previous, ids, now);
            let n = st.inserts.len() as int;
            &&& r.inserts.len() == n + fresh
            &&& forall|j: int| 0 <= j < n ==> r.inserts[j] == st.inserts[j]
            &&& forall|j: int|
                0 <= j < fresh ==> (#[trigger] r.inserts[n + j]).previous_version == (if j == 0 {
                    match previous {
                        Some(p) => Some(p.id),
                        None => None,
                    }
                } else {
                    Some(r.inserts[n + j - 1].id)
                })
            &&& forall|j: int| 0 <= j < fresh ==> (#[trigger] r.inserts[n + j]).is_latest_version == (j == fresh - 1)
        }),
{
    let matched = previous is Some && unchanged(previous->0, sorted[0]);
    let st1 = if matched { touch_step(st, previous->0.id) } else { st };
    let rest = if matched { sorted.drop_first() } else { sorted };
    let st2 = PlanState {
        prev: match previous {
            Some(p) => Some(p.id),
            None => None,
        },
        ..st1
    };
    lemma_versions_chain(st2, source, rest, rest.len() as int, ids, now);
    let r = versioned_plan(st, source, sorted, previous, ids, now);
    let n = st.inserts.len() as int;
    let fresh = rest.len() as int;
    assert forall|j: int| 0 <= j < fresh implies (#[trigger] r.inserts[n + j]).previous_version == (if j == 0 {
        match previous {
            Some(p) => Some(p.id),
            None => None,
        }
    } else {
        Some(r.inserts[n + j - 1].id)
    }) by {
        if j > 0 {
            assert(r.inserts[n + (j - 1)].id == ids[st2.used + (j - 1)]);
        }
    }
}

proof fn lemma_versions_keep_refresh(
    st: PlanState,
    source: u128,
    items: Seq<InputNewsView>,
    total: int,
    ids: Seq<u128>,
    now: i128,
)
    ensures
        versions_fold(st, source, items, total, ids, now).refresh == st.refresh,
    decreases items.len(),
{
    if items.len() > 0 {
        lemma_versions_keep_refresh(st, source, items.drop_last(), total, ids, now);
    }
}

/// A stored latest version is seen again (refreshed, not stored anew) only when it equals the
/// oldest fetched version in every stored field: publication and update times, address, title,
/// summary and content. When any of them differs, every fetched version is inserted, the
/// oldest one linked to the stored version and holding the fetched fields.
pub proof fn law_stored_version_refreshed_only_when_identical(
    st: PlanState,
    source: u128,
    sorted: Seq<InputNewsView>,
    p: StoredNewsView,
    ids: Seq<u128>,
    now: i128,
)
    requires
        sorted.len() > 0,
    ensures
        ({
            let v = sorted[0];
            let same = p.published_at == v.published_at && p.updated_at == v.updated_at && p.uri == v.uri
                && p.title == v.title && p.summary == v.summary && p.content == v.content;
            let r = versioned_plan(st, source, sorted, Some(p), ids, now);
            let n = st.inserts.len() as int;
            &&& same ==> r.refresh == st.refresh.push(p.id) && r.inserts.len() == n + sorted.len() - 1
            &&& !same ==> {
                &&& r.refresh == st.refresh
                &&& r.inserts.len() == n + sorted.len()
                &&& r.inserts[n].previous_version == Some(p.id)
                &&& r.inserts[n].content == v.content
                &&& r.inserts[n].title == v.title
                &&& r.inserts[n].summary == v.summary
                &&& r.inserts[n].uri == v.uri
                &&& r.inserts[n].published_at == v.published_at
                &&& r.inserts[n].updated_at == v.updated_at
            }
        }),
{
    let matched = unchanged(p, sorted[0]);
    let st1 = if matched { touch_step(st, p.id) } else { st };
    let rest = if matched { sorted.drop_first() } else { sorted };
    let st2 = PlanState { prev: Some(p.id), ..st1 };
    lemma_versions_keep_refresh(st2, source, rest, rest.len() as int, ids, now);
    lemma_versions_chain(st2, source, rest, rest.len() as int, ids, now);
    if !matched {
        let n = st.inserts.len() as int;
        let r = versions_fold(st2, source, rest, rest.len() as int, ids, now);
        assert(r.inserts[n + 0] == record_of(rest[0], ids[st2.used as int + 0], source, 0 == rest.len() - 1, st2.prev, now));
    }
}

pub(crate) proof fn lemma_sort_len(s: Seq<InputNewsView>)
    ensures
        sort_spec(s).len() == s.len(),
    decreases s.len(),
{
    if s.len() > 0 {
        lemma_sort_len(s.drop_last());
        lemma_sorted_insert_len(sort_spec(s.drop_last()), s.last());
    }
}

pub(crate) proof fn lemma_plan_used(source: u128, gs: Seq<NewsGroupView>, ls: Seq<GroupLookupView>, ids: Seq<u128>, now: i128)
    requires
        forall|i: int| 0 <= i < gs.len() ==> lookup_fits(#[trigger] gs[i], ls[i]),
        forall|i: int| 0 <= i < gs.len() ==> #[trigger] gs[i].items.len() > 0,
    ensures
        plan_spec(source, gs, ls, ids, now).used <= total_items(gs),
    decreases gs.len(),
{
    if gs.len() > 0 {
        let init = gs.drop_last();
        assert forall|i: int| 0 <= i < init.len() implies lookup_fits(#[trigger] init[i], ls[i]) by {
            assert(init[i] == gs[i]);
        }
        assert forall|i: int| 0 <= i < init.len() implies #[trigger] init[i].items.len() > 0 by {
            assert(init[i] == gs[i]);
        }
        lemma_plan_used(source, init, ls, ids, now);
        let st = plan_spec(source, init, ls, ids, now);
        let g = gs.last();
        assert(lookup_fits(gs[gs.len() - 1], ls[gs.len() - 1]));
        match ls[gs.len() - 1] {
            GroupLookupView::Unversioned(es) => {
                lemma_unversioned_used(st, source, g.items, es, ids, now);
            },
            GroupLookupView::Versioned(p) => {
                let sorted = sort_spec(g.items);
                lemma_sort_len(g.items);
                let matched = p is Some && unchanged(p->0, sorted[0]);
                let st1 = if matched { touch_step(st, p->0.id) } else { st };
                let rest = if matched { sorted.drop_first() } else { sorted };
                let st2 = PlanState { prev: match p { Some(q) => Some(q.id), None => None }, ..st1 };
                lemma_versions_used(st2, source, rest, rest.len() as int, ids, now);
            },
        }
    }
}

proof fn lemma_total_items_prefix(gs: Seq<NewsGroupView>, k: int)
    requires
        0 <= k <= gs.len(),
    ensures
        total_items(gs.take(k)) <= total_items(gs),
    decreases gs.len(),
{
    if k < gs.len() {
        assert(gs.drop_last().take(k) =~= gs.take(k));
        lemma_total_items_prefix(gs.drop_last(), k);
    } else {
        assert(gs.take(k) =~= gs);
    }
}

/// Plans the storage of the fetched `groups` of one source, given what the database holds of
/// each (`lookups`), fresh identifiers for new records (`ids`, used in order) and the time of
/// the fetch (`now`).
pub fn plan_news_addition(
    source: u128,
    groups: &Vec<NewsGroup>,
    lookups: &Vec<GroupLookup>,
    ids: &Vec<u128>,
    now: i128,
) -> (r: NewsAdditionPlan)
    requires
        groups@.len() == lookups@.len(),
        forall|i: int| 0 <= i < groups@.len() ==> lookup_fits(#[trigger] groups@[i]@, lookups@[i]@),
        forall|i: int| 0 <= i < groups@.len() ==> #[trigger] groups@[i].items@.len() > 0,
        total_items(group_views(groups@)) <= ids@.len(),
    ensures
        ({
            let st = plan_spec(
                source,
                group_views(groups@),
                lookups@.map_values(|l: GroupLookup| l@),
                ids@,
                now,
            );
            &&& r.inserts@.map_values(|x: NewsRecord| x@) == st.inserts
            &&& r.refresh@ == st.refresh
            &&& r.demote@ == st.demote
            &&& r.output.new@ == st.new
            &&& r.output.touched@ == st.touched
            &&& r.output.oldest_publish == st.oldest
            &&& r.output.latest_publish == st.latest
        }),
{
    let ghost gs = group_views(groups@);
    let ghost ls = lookups@.map_values(|l: GroupLookup| l@);
    let mut b = PlanBuilder::new();
    let mut k: usize = 0;
    while k < groups.len()
        invariant
            k <= groups@.len(),
            gs == group_views(groups@),
            ls == lookups@.map_values(|l: GroupLookup| l@),
            groups@.len() == lookups@.len(),
            forall|i: int| 0 <= i < groups@.len() ==> lookup_fits(#[trigger] groups@[i]@, lookups@[i]@),
            forall|i: int| 0 <= i < groups@.len() ==> #[trigger] groups@[i].items@.len() > 0,
            total_items(gs) <= ids@.len(),
            b@ == plan_spec(source, gs.take(k as int), ls, ids@, now),
            b@.used <= total_items(gs.take(k as int)),
        decreases groups@.len() - k,
    {
        let g = &groups[k];
        let l = &lookups[k];
        let ghost st0 = b@;
        proof {
            assert(gs.take(k + 1).drop_last() =~= gs.take(k as int));
            assert(gs.take(k + 1).last() == g@);
            assert(ls[k as int] == l@);
            lemma_total_items_prefix(gs, k + 1);
            assert(lookup_fits(groups@[k as int]@, lookups@[k as int]@));
        }
        let ghost items = g@.items;
        match l {
            GroupLookup::Unversioned(es) => {
                let mut j: usize = 0;
                while j < g.items.len()
                    invariant
                        j <= g.items@.len(),
                        items == g@.items,
                        es@.len() == items.len(),
                        st0.used + items.len() <= ids@.len(),
                        b@ == unversioned_fold(st0, source, items.take(j as int), es@, ids@, now),
                        b@.used <= st0.used + j,
                    decreases g.items@.len() - j,
                {
                    proof {
                        assert(items.take(j + 1).drop_last() =~= items.take(j as int));
                        assert(items.take(j + 1).last() == g.items@[j as int]@);
                    }
                    b.add_unversioned(source, &g.items[j], es[j], ids, now);
                    j = j + 1;
                }
                assert(items.take(items.len() as int) =~= items);
            },
            GroupLookup::Versioned(prev) => {
                let sorted = sort_versions(&g.items);
                let ghost sv = news_views(sorted@);
                proof {
                    lemma_sort_len(items);
                }
                let matched = match prev {
                    Some(p) => p.is_unchanged(&sorted[0]),
                    None => false,
                };
                match prev {
                    Some(p) => {
                        if matched {
                            b.touch(p.id);
                        }
                        b.set_prev(Some(p.id));
                    },
                    None => {
                        b.set_prev(None);
                    },
                }
                let start: usize = if matched { 1 } else { 0 };
                let total = sorted.len() - start;
                let ghost st2 = b@;
                let ghost rest = sv.skip(start as int);
                proof {
                    assert(sv[0] == sorted@[0]@);
                    if matched {
                        assert(rest =~= sv.drop_first());
                    } else {
                        assert(rest =~= sv);
                    }
                }
                let mut j: usize = start;
                while j < sorted.len()
                    invariant
                        start <= j <= sorted@.len(),
                        sv == news_views(sorted@),
                        rest == sv.skip(start as int),
                        total == sorted@.len() - start,
                        st2.used + total <= ids@.len(),
                        b@ == versions_fold(st2, source, rest.take(j - start), total as int, ids@, now),
                    decreases sorted@.len() - j,
                {
                    proof {
                        lemma_versions_used(st2, source, rest.take(j - start), total as int, ids@, now);
                        assert(rest.take(j - start + 1).drop_last() =~= rest.take(j - start));
                        assert(rest.take(j - start + 1).last() == sorted@[j as int]@);
                    }
                    b.add_version(source, &sorted[j], total, j - start, ids, now);
                    j = j + 1;
                }
                proof {
                    assert(rest.take(total as int) =~= rest);
                    lemma_versions_used(st2, source, rest, total as int, ids@, now);
                }
                b.set_prev(None);
            },
        }
        proof {
            lemma_plan_used(source, gs.take(k + 1), ls, ids@, now);
        }
        k = k + 1;
    }
    assert(gs.take(groups@.len() as int) =~= gs);
    b.finish()
}

/// A fresh random identifier.
///
/// Calls `uuid::Uuid::new_v4` and returns the identifier as its 128-bit value; the value is
/// random, so nothing is stated of it.
#[verifier::external_body]
pub(crate) fn new_uuid() -> (r: u128) {
    uuid::Uuid::new_v4().as_u128()
}

/// Plans the storage of the fetched `groups` of one source, given what the database holds of
/// each, drawing a fresh random identifier for every new record.
pub fn plan_news_addition_with_fresh_ids(
    source: u128,
    groups: &Vec<NewsGroup>,
    lookups: &Vec<GroupLookup>,
    now: i128,
) -> (r: NewsAdditionPlan)
    requires
        groups@.len() == lookups@.len(),
        forall|i: int| 0 <= i < groups@.len() ==> lookup_fits(#[trigger] groups@[i]@, lookups@[i]@),
        forall|i: int| 0 <= i < groups@.len() ==> #[trigger] groups@[i].items@.len() > 0,
    ensures
        exists|ids: Seq<u128>|
            #![trigger ids.len()]
            {
                let st = plan_spec(
                    source,
                    group_views(groups@),
                    lookups@.map_values(|l: GroupLookup| l@),
                    ids,
                    now,
                );
                &&& ids.len() == total_items(group_views(groups@))
                &&& r.inserts@.map_values(|x: NewsRecord| x@) == st.inserts
                &&& r.refresh@ == st.refresh
                &&& r.demote@ == st.demote
                &&& r.output.new@ == st.new
                &&& r.output.touched@ == st.touched
                &&& r.output.oldest_publish == st.oldest
                &&& r.output.latest_publish == st.latest
            },
{
    let ghost gs = group_views(groups@);
    let mut ids: Vec<u128> = Vec::new();
    let mut k: usize = 0;
    while k < groups.len()
        invariant
            k <= groups@.len(),
            gs == group_views(groups@),
            ids@.len() == total_items(gs.take(k as int)),
        decreases groups@.len() - k,
    {
        let mut j: usize = 0;
        let ghost before = ids@.len();
        while j < groups[k].items.len()
            invariant
                k < groups@.len(),
                j <= groups@[k as int].items@.len(),
                ids@.len() == before + j,
            decreases groups@[k as int].items@.len() - j,
        {
            ids.push(new_uuid());
            j = j + 1;
        }
        proof {
            assert(gs.take(k + 1).drop_last() =~= gs.take(k as int));
            assert(gs.take(k + 1).last() == groups@[k as int]@);
        }
        k = k + 1;
    }
    assert(gs.take(groups@.len() as int) =~= gs);
    let r = plan_news_addition(source, groups, lookups, &ids, now);
    assert(ids@.len() == total_items(gs));
    r
}

/// The publication bounds `(oldest, latest)` after taking the publication times `ps` into
/// account one after the other, starting from no bounds.
pub open spec fn bounds_fold(ps: Seq<Option<i128>>) -> (Option<i128>, Option<i128>)
    decreases ps.len(),
{
    if ps.len() == 0 {
        (None, None)
    } else {
        let b = bounds_fold(ps.drop_last());
        update_bounds_spec(b.0, b.1, ps.last())
    }
}

/// The publication bounds are the earliest and the latest of the known publication times, and
/// there are none exactly when no publication time is known.
pub proof fn law_publish_bounds_are_extremes(ps: Seq<Option<i128>>)
    ensures
        ({
            let (o, l) = bounds_fold(ps);
            &&& (o is None <==> forall|i: int| 0 <= i < ps.len() ==> ps[i] is None)
            &&& (l is None <==> o is None)
            &&& o is Some ==> (exists|i: int| 0 <= i < ps.len() && ps[i] == o)
            &&& l is Some ==> (exists|i: int| 0 <= i < ps.len() && ps[i] == l)
            &&& forall|i: int| 0 <= i < ps.len() && #[trigger] ps[i] is Some ==> o->0 <= ps[i]->0 <= l->0
        }),
    decreases ps.len(),
{
    if ps.len() > 0 {
        let init = ps.drop_last();
        law_publish_bounds_are_extremes(init);
        let (o0, l0) = bounds_fold(init);
        let (o, l) = bounds_fold(ps);
        assert forall|i: int| 0 <= i < init.len() implies init[i] == ps[i] by {}
        if o0 is Some {
            let i = choose|i: int| 0 <= i < init.len() && init[i] == o0;
            assert(ps[i] == o0);
            assert(o0->0 <= l0->0) by {
                assert(init[i] is Some);
            }
        }
        if l0 is Some {
            let i = choose|i: int| 0 <= i < init.len() && init[i] == l0;
            assert(ps[i] == l0);
        }
        let n = ps.len() - 1;
        if o is None {
            assert forall|i: int| 0 <= i < ps.len() implies ps[i] is None by {
                if i < n {
                    assert(init[i] == ps[i]);
                }
            }
        }
        if o is Some && o != o0 {
            assert(ps[n] == o);
        }
        if l is Some && l != l0 {
            assert(ps[n] == l);
        }
        assert forall|i: int| 0 <= i < ps.len() && #[trigger] ps[i] is Some implies o->0 <= ps[i]->0 <= l->0 by {
            if i < n {
                assert(init[i] == ps[i]);
                assert(init[i] is Some);
            }
        }
    }
}

/// The publication times of the records `rs`.
pub open spec fn published_times(rs: Seq<NewsRecordView>) -> Seq<Option<i128>> {
    rs.map_values(|r: NewsRecordView| r.published_at)
}

/// The invariant of a plan: the new identifiers are those of the planned records, in order,
/// and the publication bounds are those of the planned records.
pub open spec fn plan_invariant(st: PlanState) -> bool {
    &&& st.new == st.inserts.map_values(|r: NewsRecordView| r.id)
    &&& (st.oldest, st.latest) == bounds_fold(published_times(st.inserts))
}

proof fn lemma_insert_keeps_invariant(st: PlanState, rec: NewsRecordView)
    requires
        plan_invariant(st),
    ensures
        plan_invariant(insert_step(st, rec)),
{
    let st1 = insert_step(st, rec);
    assert(st1.inserts.map_values(|r: NewsRecordView| r.id) =~= st.inserts.map_values(|r: NewsRecordView| r.id).push(rec.id));
    assert(published_times(st1.inserts).drop_last() =~= published_times(st.inserts));
}

proof fn lemma_unversioned_keeps_invariant(
    st: PlanState,
    source: u128,
    items: Seq<InputNewsView>,
    existing: Seq<Option<u128>>,
    ids: Seq<u128>,
    now: i128,
)
    requires
        plan_invariant(st),
    ensures
        plan_invariant(unversioned_fold(st, source, items, existing, ids, now)),
    decreases items.len(),
{
    if items.len() > 0 {
        lemma_unversioned_keeps_invariant(st, source, items.drop_last(), existing, ids, now);
        let st0 = unversioned_fold(st, source, items.drop_last(), existing, ids, now);
        match existing[items.len() - 1] {
            Some(id) => {},
            None => {
                lemma_insert_keeps_invariant(st0, record_of(items.last(), ids[st0.used as int], source, true, None, now));
            },
        }
    }
}

proof fn lemma_versions_keep_invariant(
    st: PlanState,
    source: u128,
    items: Seq<InputNewsView>,
    total: int,
    ids: Seq<u128>,
    now: i128,
)
    requires
        plan_invariant(st),
    ensures
        plan_invariant(versions_fold(st, source, items, total, ids, now)),
    decreases items.len(),
{
    if items.len() > 0 {
        lemma_versions_keep_invariant(st, source, items.drop_last(), total, ids, now);
        let st0 = versions_fold(st, source, items.drop_last(), total, ids, now);
        let id = ids[st0.used as int];
        let is_latest = items.len() - 1 == total - 1;
        lemma_insert_keeps_invariant(st0, record_of(items.last(), id, source, is_latest, st0.prev, now));
    }
}

pub(crate) proof fn lemma_plan_keeps_invariant(source: u128, gs: Seq<NewsGroupView>, ls: Seq<GroupLookupView>, ids: Seq<u128>, now: i128)
    ensures
        plan_invariant(plan_spec(source, gs, ls, ids, now)),
    decreases gs.len(),
{
    if gs.len() == 0 {
        assert(initial_plan().inserts.map_values(|r: NewsRecordView| r.id) =~= Seq::<u128>::empty());
        assert(published_times(initial_plan().inserts) =~= Seq::<Option<i128>>::empty());
    } else {
        lemma_plan_keeps_invariant(source, gs.drop_last(), ls, ids, now);
        let st = plan_spec(source, gs.drop_last(), ls, ids, now);
        match ls[gs.len() - 1] {
            GroupLookupView::Unversioned(es) => {
                lemma_unversioned_keeps_invariant(st, source, gs.last().items, es, ids, now);
            },
            GroupLookupView::Versioned(p) => {
                let sorted = sort_spec(gs.last().items);
                let matched = p is Some && unchanged(p->0, sorted[0]);
                let st1 = if matched { touch_step(st, p->0.id) } else { st };
                let rest = if matched { sorted.drop_first() } else { sorted };
                let st2 = PlanState { prev: match p { Some(q) => Some(q.id), None => None }, ..st1 };
                lemma_versions_keep_invariant(st2, source, rest, rest.len() as int, ids, now);
            },
        }
    }
}

/// Adding news reports as new exactly the records it inserts, in order, and as publication
/// bounds the earliest and the latest publication time among them.
pub proof fn law_addition_outcome(source: u128, gs: Seq<NewsGroupView>, ls: Seq<GroupLookupView>, ids: Seq<u128>, now: i128)
    ensures
        ({
            let st = plan_spec(source, gs, ls, ids, now);
            let ps = published_times(st.inserts);
            &&& st.new == st.inserts.map_values(|r: NewsRecordView| r.id)
            &&& (st.oldest is None <==> forall|i: int| 0 <= i < ps.len() ==> ps[i] is None)
            &&& (st.latest is None <==> st.oldest is None)
            &&& st.oldest is Some ==> (exists|i: int| 0 <= i < ps.len() && ps[i] == st.oldest)
            &&& st.latest is Some ==> (exists|i: int| 0 <= i < ps.len() && ps[i] == st.latest)
            &&& forall|i: int| 0 <= i < ps.len() && #[trigger] ps[i] is Some ==> st.oldest->0 <= ps[i]->0 <= st.latest->0
        }),
{
    lemma_plan_keeps_invariant(source, gs, ls, ids, now);
    let st = plan_spec(source, gs, ls, ids, now);
    law_publish_bounds_are_extremes(published_times(st.inserts));
}

/// Whether every touched item of a plan is explained: it is touched exactly when it is
/// refreshed (seen again unchanged) or demoted (superseded), and every demoted item is the
/// previous version of a planned record.
pub open spec fn touched_explained(st: PlanState) -> bool {
    &&& forall|x: u128| #[trigger] st.touched.contains(x) <==> (st.refresh.contains(x) || st.demote.contains(x))
    &&& forall|x: u128|
        #[trigger] st.demote.contains(x) ==> exists|j: int|
            0 <= j < st.inserts.len() && #[trigger] st.inserts[j].previous_version == Some(x)
}

proof fn lemma_insert_keeps_explained(st: PlanState, rec: NewsRecordView)
    requires
        touched_explained(st),
    ensures
        touched_explained(insert_step(st, rec)),
{
    let st1 = insert_step(st, rec);
    assert forall|x: u128| #[trigger] st1.demote.contains(x) implies exists|j: int|
        0 <= j < st1.inserts.len() && #[trigger] st1.inserts[j].previous_version == Some(x) by {
        let j = choose|j: int| 0 <= j < st.inserts.len() && #[trigger] st.inserts[j].previous_version == Some(x);
        assert(st1.inserts[j] == st.inserts[j]);
    }
}

proof fn lemma_touch_keeps_explained(st: PlanState, id: u128)
    requires
        touched_explained(st),
    ensures
        touched_explained(touch_step(st, id)),
{
    let st1 = touch_step(st, id);
    assert forall|x: u128| #[trigger] st1.touched.contains(x) <==> (st1.refresh.contains(x) || st1.demote.contains(x)) by {
        vstd::seq_lib::lemma_seq_contains_after_push(st.touched, id, x);
        vstd::seq_lib::lemma_seq_contains_after_push(st.refresh, id, x);
    }
    lemma_demotions_explained_by_same_inserts(st, st1);
}

proof fn lemma_demotions_explained_by_same_inserts(st: PlanState, st1: PlanState)
    requires
        touched_explained(st),
        st1.demote == st.demote,
        st1.inserts == st.inserts,
    ensures
        forall|x: u128|
            #[trigger] st1.demote.contains(x) ==> exists|j: int|
                0 <= j < st1.inserts.len() && #[trigger] st1.inserts[j].previous_version == Some(x),
{
    assert forall|x: u128| #[trigger] st1.demote.contains(x) implies exists|j: int|
        0 <= j < st1.inserts.len() && #[trigger] st1.inserts[j].previous_version == Some(x) by {
        let j = choose|j: int| 0 <= j < st.inserts.len() && #[trigger] st.inserts[j].previous_version == Some(x);
        assert(st1.inserts[j] == st.inserts[j]);
    }
}

proof fn lemma_unversioned_keeps_explained(
    st: PlanState,
    source: u128,
    items: Seq<InputNewsView>,
    existing: Seq<Option<u128>>,
    ids: Seq<u128>,
    now: i128,
)
    requires
        touched_explained(st),
    ensures
        touched_explained(unversioned_fold(st, source, items, existing, ids, now)),
    decreases items.len(),
{
    if items.len() > 0 {
        lemma_unversioned_keeps_explained(st, source, items.drop_last(), existing, ids, now);
        let st0 = unversioned_fold(st, source, items.drop_last(), existing, ids, now);
        match existing[items.len() - 1] {
            Some(id) => {
                lemma_touch_keeps_explained(st0, id);
            },
            None => {
                lemma_insert_keeps_explained(st0, record_of(items.last(), ids[st0.used as int], source, true, None, now));
            },
        }
    }
}

proof fn lemma_version_keeps_explained(
    st: PlanState,
    source: u128,
    item: InputNewsView,
    total: int,
    index: int,
    ids: Seq<u128>,
    now: i128,
)
    requires
        touched_explained(st),
    ensures
        touched_explained(version_step(st, source, item, total, index, ids, now)),
{
    broadcast use vstd::seq_lib::lemma_seq_contains_after_push;

    let id = ids[st.used as int];
    let is_latest = index == total - 1;
    let rec = record_of(item, id, source, is_latest, st.prev, now);
    let st1 = insert_step(st, rec);
    lemma_insert_keeps_explained(st, rec);
    let st2 = version_step(st, source, item, total, index, ids, now);
    let n = st.inserts.len() as int;
    assert(st1.inserts[n] == rec);
    assert forall|x: u128| #[trigger] st2.demote.contains(x) implies exists|j: int|
        0 <= j < st2.inserts.len() && #[trigger] st2.inserts[j].previous_version == Some(x) by {
        if st1.demote.contains(x) {
            let j = choose|j: int| 0 <= j < st1.inserts.len() && #[trigger] st1.inserts[j].previous_version == Some(x);
            assert(st2.inserts[j] == st1.inserts[j]);
        } else {
            assert(st2.inserts[n].previous_version == Some(x));
        }
    }
}

proof fn lemma_versions_keep_explained(
    st: PlanState,
    source: u128,
    items: Seq<InputNewsView>,
    total: int,
    ids: Seq<u128>,
    now: i128,
)
    requires
        touched_explained(st),
    ensures
        touched_explained(versions_fold(st, source, items, total, ids, now)),
    decreases items.len(),
{
    if items.len() > 0 {
        lemma_versions_keep_explained(st, source, items.drop_last(), total, ids, now);
        let st0 = versions_fold(st, source, items.drop_last(), total, ids, now);
        lemma_version_keeps_explained(st0, source, items.last(), total, items.len() - 1, ids, now);
    }
}

/// Adding news touches exactly the stored items that it refreshes (seen again unchanged) or
/// demotes (superseded), and each demoted item is the previous version of a record it
/// inserts.
pub proof fn law_touched_are_unchanged_or_superseded(
    source: u128,
    gs: Seq<NewsGroupView>,
    ls: Seq<GroupLookupView>,
    ids: Seq<u128>,
    now: i128,
)
    ensures
        touched_explained(plan_spec(source, gs, ls, ids, now)),
    decreases gs.len(),
{
    if gs.len() == 0 {
        let st = initial_plan();
        assert forall|x: u128| #[trigger] st.touched.contains(x) <==> (st.refresh.contains(x) || st.demote.contains(x)) by {
            vstd::seq_lib::lemma_seq_empty_contains_nothing::<u128>(x);
        }
        assert forall|x: u128| #[trigger] st.demote.contains(x) implies exists|j: int|
            0 <= j < st.inserts.len() && #[trigger] st.inserts[j].previous_version == Some(x) by {
            vstd::seq_lib::lemma_seq_empty_contains_nothing::<u128>(x);
        }
    } else {
        law_touched_are_unchanged_or_superseded(source, gs.drop_last(), ls, ids, now);
        let st = plan_spec(source, gs.drop_last(), ls, ids, now);
        match ls[gs.len() - 1] {
            GroupLookupView::Unversioned(es) => {
                lemma_unversioned_keeps_explained(st, source, gs.last().items, es, ids, now);
            },
            GroupLookupView::Versioned(p) => {
                let sorted = sort_spec(gs.last().items);
                let matched = p is Some && unchanged(p->0, sorted[0]);
                let st1 = if matched { touch_step(st, p->0.id) } else { st };
                if matched {
                    lemma_touch_keeps_explained(st, p->0.id);
                }
                let rest = if matched { sorted.drop_first() } else { sorted };
                let st2 = PlanState { prev: match p { Some(q) => Some(q.id), None => None }, ..st1 };
                lemma_demotions_explained_by_same_inserts(st1, st2);
                lemma_versions_keep_explained(st2, source, rest, rest.len() as int, ids, now);
                let st3 = versions_fold(st2, source, rest, rest.len() as int, ids, now);
                lemma_demotions_explained_by_same_inserts(st3, PlanState { prev: None, ..st3 });
            },
        }
    }
}
} // verus!
