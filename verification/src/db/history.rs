//! The edit history of stored news: what the table of news holds after an addition plan is
//! carried out, and why every source-provided identifier keeps one linear history.

use vstd::prelude::*;

use crate::db::news::{
    groups_wf, lemma_plan_keeps_invariant, lemma_plan_used, lemma_sort_len, lemma_versions_chain,
    key_le, law_versions_sorted, lookup_fits, version_key, plan_invariant, plan_spec, record_of, sort_spec, total_items,
    touch_step, unchanged, unversioned_fold, versions_fold, GroupLookupView,
    InputNewsView, NewsGroupView, NewsRecordView, PlanState,
};

verus! {

/// Whether two stored records carry the same source-provided identifier.
pub open spec fn same_key(a: NewsRecordView, b: NewsRecordView) -> bool {
    a.source_provided_id is Some && a.source_provided_id == b.source_provided_id
}

/// Whether the records `t` of one source keep a linear edit history: identifiers are unique,
/// and the records of each source-provided identifier form one chain of versions, linked by
/// their previous versions inside the identifier, with no two records after the same version
/// (the first one after none), one latest version, and nothing after the latest version.
pub open spec fn linear_history(t: Seq<NewsRecordView>) -> bool {
    &&& forall|i: int, j: int| 0 <= i < j < t.len() ==> #[trigger] t[i].id != #[trigger] t[j].id
    &&& forall|i: int, j: int|
        0 <= i < t.len() && 0 <= j < t.len() && i != j && same_key(#[trigger] t[i], #[trigger] t[j])
            ==> !(t[i].is_latest_version && t[j].is_latest_version)
    &&& forall|i: int, j: int|
        0 <= i < t.len() && 0 <= j < t.len() && i != j && same_key(#[trigger] t[i], #[trigger] t[j])
            ==> t[i].previous_version != t[j].previous_version
    &&& forall|i: int, j: int|
        0 <= i < t.len() && 0 <= j < t.len() && same_key(#[trigger] t[i], #[trigger] t[j])
            && t[i].is_latest_version ==> t[j].previous_version != Some(t[i].id)
    &&& forall|i: int|
        0 <= i < t.len() && (#[trigger] t[i]).source_provided_id is Some ==> exists|j: int|
            0 <= j < t.len() && same_key(#[trigger] t[j], t[i]) && t[j].is_latest_version
    &&& forall|i: int|
        0 <= i < t.len() && (#[trigger] t[i]).source_provided_id is Some && t[i].previous_version is Some
            ==> exists|j: int|
            0 <= j < t.len() && same_key(#[trigger] t[j], t[i]) && Some(t[j].id) == t[i].previous_version
}

/// Whether `a` has the identifier, source-provided identifier and previous version of `b`, and
/// the latest flag `latest`.
pub open spec fn same_links(a: NewsRecordView, b: NewsRecordView, latest: bool) -> bool {
    &&& a.id == b.id
    &&& a.source_provided_id == b.source_provided_id
    &&& a.previous_version == b.previous_version
    &&& a.is_latest_version == latest
}

/// Adding records without source-provided identifier, under fresh identifiers, keeps the
/// history linear.
#[verifier::spinoff_prover]
#[verifier::rlimit(50)]
proof fn lemma_history_add_unkeyed(t: Seq<NewsRecordView>, t2: Seq<NewsRecordView>, n: int)
    requires
        linear_history(t),
        n >= 0,
        t2.len() == t.len() + n,
        forall|m: int| 0 <= m < t.len() ==> same_links(#[trigger] t2[m], t[m], t[m].is_latest_version),
        forall|m: int| t.len() <= m < t2.len() ==> (#[trigger] t2[m]).source_provided_id is None,
        forall|i: int, j: int| 0 <= i < j < t2.len() && t.len() <= j ==> #[trigger] t2[i].id != #[trigger] t2[j].id,
    ensures
        linear_history(t2),
{
    assert forall|i: int, j: int| 0 <= i < j < t2.len() implies #[trigger] t2[i].id != #[trigger] t2[j].id by {
        if j < t.len() {
            assert(t[i].id != t[j].id);
        }
    }
    assert forall|i: int, j: int|
        0 <= i < t2.len() && 0 <= j < t2.len() && i != j && same_key(#[trigger] t2[i], #[trigger] t2[j])
            implies !(t2[i].is_latest_version && t2[j].is_latest_version) by {
        assert(same_key(t[i], t[j]));
    }
    assert forall|i: int, j: int|
        0 <= i < t2.len() && 0 <= j < t2.len() && i != j && same_key(#[trigger] t2[i], #[trigger] t2[j])
            implies t2[i].previous_version != t2[j].previous_version by {
        assert(same_key(t[i], t[j]));
    }
    assert forall|i: int, j: int|
        0 <= i < t2.len() && 0 <= j < t2.len() && same_key(#[trigger] t2[i], #[trigger] t2[j])
            && t2[i].is_latest_version implies t2[j].previous_version != Some(t2[i].id) by {
        assert(same_key(t[i], t[j]));
    }
    assert forall|i: int|
        0 <= i < t2.len() && (#[trigger] t2[i]).source_provided_id is Some implies exists|j: int|
            0 <= j < t2.len() && same_key(#[trigger] t2[j], t2[i]) && t2[j].is_latest_version by {
        assert(t[i].source_provided_id is Some);
        let j = choose|j: int| 0 <= j < t.len() && same_key(#[trigger] t[j], t[i]) && t[j].is_latest_version;
        assert(same_key(t2[j], t2[i]));
    }
    assert forall|i: int|
        0 <= i < t2.len() && (#[trigger] t2[i]).source_provided_id is Some && t2[i].previous_version is Some
            implies exists|j: int|
            0 <= j < t2.len() && same_key(#[trigger] t2[j], t2[i]) && Some(t2[j].id) == t2[i].previous_version by {
        assert(t[i].source_provided_id is Some);
        let j = choose|j: int|
            0 <= j < t.len() && same_key(#[trigger] t[j], t[i]) && Some(t[j].id) == t[i].previous_version;
        assert(same_key(t2[j], t2[i]));
    }
}

/// Whether `t2` is `t` with a chain of `n` new versions of the identifier `key` added after
/// its latest stored version (`latest`, none when nothing of `key` is stored), that version
/// being demoted when the chain is not empty.
pub open spec fn chain_added(
    t: Seq<NewsRecordView>,
    t2: Seq<NewsRecordView>,
    key: Seq<char>,
    latest: Option<u128>,
    n: int,
) -> bool {
    &&& linear_history(t)
    &&& n >= 0
    &&& t2.len() == t.len() + n
    &&& match latest {
        None => forall|m: int| 0 <= m < t.len() ==> (#[trigger] t[m]).source_provided_id != Some(key),
        Some(pid) => exists|m: int|
            0 <= m < t.len() && (#[trigger] t[m]).source_provided_id == Some(key) && t[m].is_latest_version
                && t[m].id == pid,
    }
    &&& forall|m: int|
        0 <= m < t.len() ==> same_links(
            #[trigger] t2[m],
            t[m],
            t[m].is_latest_version && !(n > 0 && latest == Some(t[m].id)),
        )
    &&& forall|m: int|
        t.len() <= m < t2.len() ==> {
            &&& (#[trigger] t2[m]).source_provided_id == Some(key)
            &&& t2[m].previous_version == (if m == t.len() {
                latest
            } else {
                Some(t2[m - 1].id)
            })
            &&& t2[m].is_latest_version == (m == t2.len() - 1)
        }
    &&& forall|i: int, j: int| 0 <= i < j < t2.len() && t.len() <= j ==> #[trigger] t2[i].id != #[trigger] t2[j].id
}

/// The stored latest version of `key`, as the index of its record.
proof fn lemma_chain_latest_index(t: Seq<NewsRecordView>, t2: Seq<NewsRecordView>, key: Seq<char>, latest: Option<u128>, n: int) -> (m: int)
    requires
        chain_added(t, t2, key, latest, n),
        latest is Some,
    ensures
        0 <= m < t.len(),
        t[m].source_provided_id == Some(key),
        t[m].is_latest_version,
        t[m].id == latest->0,
        t2[m].id == latest->0,
{
    let m = choose|m: int|
        0 <= m < t.len() && (#[trigger] t[m]).source_provided_id == Some(key) && t[m].is_latest_version
            && t[m].id == latest->0;
    assert(same_links(t2[m], t[m], t[m].is_latest_version && !(n > 0 && latest == Some(t[m].id))));
    m
}

/// An old latest record of `key` is the stored latest version.
proof fn lemma_chain_old_latest(t: Seq<NewsRecordView>, t2: Seq<NewsRecordView>, key: Seq<char>, latest: Option<u128>, n: int, i: int)
    requires
        chain_added(t, t2, key, latest, n),
        0 <= i < t.len(),
        t[i].source_provided_id == Some(key),
        t[i].is_latest_version,
    ensures
        latest == Some(t[i].id),
{
    match latest {
        None => {
            assert(t[i].source_provided_id != Some(key));
        },
        Some(pid) => {
            let m = lemma_chain_latest_index(t, t2, key, latest, n);
            if m != i {
                assert(same_key(t[i], t[m]));
            }
        },
    }
}

/// An old keyed record points at an old record.
proof fn lemma_chain_old_points_old(t: Seq<NewsRecordView>, t2: Seq<NewsRecordView>, key: Seq<char>, latest: Option<u128>, n: int, i: int, j: int)
    requires
        chain_added(t, t2, key, latest, n),
        0 <= i < t.len(),
        t.len() <= j < t2.len(),
        t[i].source_provided_id is Some,
    ensures
        t[i].previous_version != Some(t2[j].id),
{
    if t[i].previous_version is Some {
        let w = choose|w: int|
            0 <= w < t.len() && same_key(#[trigger] t[w], t[i]) && Some(t[w].id) == t[i].previous_version;
        assert(same_links(t2[w], t[w], t[w].is_latest_version && !(n > 0 && latest == Some(t[w].id))));
        assert(t2[w].id != t2[j].id);
    }
}

proof fn lemma_chain_ids(t: Seq<NewsRecordView>, t2: Seq<NewsRecordView>, key: Seq<char>, latest: Option<u128>, n: int)
    requires
        chain_added(t, t2, key, latest, n),
    ensures
        forall|i: int, j: int| 0 <= i < j < t2.len() ==> #[trigger] t2[i].id != #[trigger] t2[j].id,
{
    assert forall|i: int, j: int| 0 <= i < j < t2.len() implies #[trigger] t2[i].id != #[trigger] t2[j].id by {
        if j < t.len() {
            assert(t[i].id != t[j].id);
        }
    }
}

proof fn lemma_chain_one_latest(t: Seq<NewsRecordView>, t2: Seq<NewsRecordView>, key: Seq<char>, latest: Option<u128>, n: int)
    requires
        chain_added(t, t2, key, latest, n),
    ensures
        forall|i: int, j: int|
            0 <= i < t2.len() && 0 <= j < t2.len() && i != j && same_key(#[trigger] t2[i], #[trigger] t2[j])
                ==> !(t2[i].is_latest_version && t2[j].is_latest_version),
{
    let len = t.len();
    assert forall|i: int, j: int|
        0 <= i < t2.len() && 0 <= j < t2.len() && i != j && same_key(#[trigger] t2[i], #[trigger] t2[j])
            implies !(t2[i].is_latest_version && t2[j].is_latest_version) by {
        if t2[i].is_latest_version && t2[j].is_latest_version {
            if i < len && j < len {
                assert(same_key(t[i], t[j]));
            } else if i < len {
                lemma_chain_old_latest(t, t2, key, latest, n, i);
            } else if j < len {
                lemma_chain_old_latest(t, t2, key, latest, n, j);
            }
        }
    }
}

proof fn lemma_chain_distinct_previous(t: Seq<NewsRecordView>, t2: Seq<NewsRecordView>, key: Seq<char>, latest: Option<u128>, n: int)
    requires
        chain_added(t, t2, key, latest, n),
    ensures
        forall|i: int, j: int|
            0 <= i < t2.len() && 0 <= j < t2.len() && i != j && same_key(#[trigger] t2[i], #[trigger] t2[j])
                ==> t2[i].previous_version != t2[j].previous_version,
{
    let len = t.len();
    assert forall|i: int, j: int|
        0 <= i < t2.len() && 0 <= j < t2.len() && i != j && same_key(#[trigger] t2[i], #[trigger] t2[j])
            implies t2[i].previous_version != t2[j].previous_version by {
        if i < len && j < len {
            assert(same_key(t[i], t[j]));
        } else if i >= len && j >= len {
            if i > len && j > len {
                assert(t2[i - 1].id != t2[j - 1].id);
            } else if latest is Some {
                let m = lemma_chain_latest_index(t, t2, key, latest, n);
                if i == len {
                    assert(t2[m].id != t2[j - 1].id);
                } else {
                    assert(t2[m].id != t2[i - 1].id);
                }
            }
        } else {
            let o = if i < len { i } else { j };
            let w = if i < len { j } else { i };
            assert(t[o].source_provided_id == Some(key));
            if w == len {
                if latest is Some {
                    let m = lemma_chain_latest_index(t, t2, key, latest, n);
                    assert(same_key(t[m], t[o]));
                } else {
                    assert(t[o].source_provided_id != Some(key));
                }
            } else {
                lemma_chain_old_points_old(t, t2, key, latest, n, o, w - 1);
            }
        }
    }
}

proof fn lemma_chain_nothing_after_latest(t: Seq<NewsRecordView>, t2: Seq<NewsRecordView>, key: Seq<char>, latest: Option<u128>, n: int)
    requires
        chain_added(t, t2, key, latest, n),
    ensures
        forall|i: int, j: int|
            0 <= i < t2.len() && 0 <= j < t2.len() && same_key(#[trigger] t2[i], #[trigger] t2[j])
                && t2[i].is_latest_version ==> t2[j].previous_version != Some(t2[i].id),
{
    let len = t.len();
    assert forall|i: int, j: int|
        0 <= i < t2.len() && 0 <= j < t2.len() && same_key(#[trigger] t2[i], #[trigger] t2[j])
            && t2[i].is_latest_version implies t2[j].previous_version != Some(t2[i].id) by {
        if i < len {
            if j < len {
                assert(same_key(t[i], t[j]));
            } else {
                lemma_chain_old_latest(t, t2, key, latest, n, i);
            }
        } else {
            if j < len {
                lemma_chain_old_points_old(t, t2, key, latest, n, j, i);
            } else if j == len {
                if latest is Some {
                    let m = lemma_chain_latest_index(t, t2, key, latest, n);
                    assert(t2[m].id != t2[i].id);
                }
            } else {
                assert(t2[j - 1].id != t2[i].id);
            }
        }
    }
}

proof fn lemma_chain_has_latest(t: Seq<NewsRecordView>, t2: Seq<NewsRecordView>, key: Seq<char>, latest: Option<u128>, n: int)
    requires
        chain_added(t, t2, key, latest, n),
    ensures
        forall|i: int|
            0 <= i < t2.len() && (#[trigger] t2[i]).source_provided_id is Some ==> exists|j: int|
                0 <= j < t2.len() && same_key(#[trigger] t2[j], t2[i]) && t2[j].is_latest_version,
{
    let len = t.len();
    let last = t2.len() - 1;
    assert forall|i: int|
        0 <= i < t2.len() && (#[trigger] t2[i]).source_provided_id is Some implies exists|j: int|
            0 <= j < t2.len() && same_key(#[trigger] t2[j], t2[i]) && t2[j].is_latest_version by {
        if i >= len {
            assert(same_key(t2[last], t2[i]));
        } else if n > 0 && t[i].source_provided_id == Some(key) {
            assert(same_key(t2[last], t2[i]));
        } else {
            let w = choose|w: int| 0 <= w < len && same_key(#[trigger] t[w], t[i]) && t[w].is_latest_version;
            if n > 0 && latest == Some(t[w].id) {
                let m = lemma_chain_latest_index(t, t2, key, latest, n);
                if m != w {
                    assert(t[m].id != t[w].id);
                }
            }
            assert(same_key(t2[w], t2[i]));
        }
    }
}

#[verifier::spinoff_prover]
#[verifier::rlimit(40)]
proof fn lemma_chain_links_inside(t: Seq<NewsRecordView>, t2: Seq<NewsRecordView>, key: Seq<char>, latest: Option<u128>, n: int)
    requires
        chain_added(t, t2, key, latest, n),
    ensures
        forall|i: int|
            0 <= i < t2.len() && (#[trigger] t2[i]).source_provided_id is Some && t2[i].previous_version is Some
                ==> exists|j: int|
                0 <= j < t2.len() && same_key(#[trigger] t2[j], t2[i]) && Some(t2[j].id) == t2[i].previous_version,
{
    let len = t.len();
    assert forall|i: int|
        0 <= i < t2.len() && (#[trigger] t2[i]).source_provided_id is Some && t2[i].previous_version is Some
            implies exists|j: int|
            0 <= j < t2.len() && same_key(#[trigger] t2[j], t2[i]) && Some(t2[j].id) == t2[i].previous_version by {
        if i < len {
            assert(same_links(t2[i], t[i], t[i].is_latest_version && !(n > 0 && latest == Some(t[i].id))));
            assert(t[i].source_provided_id is Some && t[i].previous_version is Some);
            let w = choose|w: int|
                0 <= w < len && same_key(#[trigger] t[w], t[i]) && Some(t[w].id) == t[i].previous_version;
            assert(same_links(t2[w], t[w], t[w].is_latest_version && !(n > 0 && latest == Some(t[w].id))));
            assert(same_key(t2[w], t2[i]));
        } else if i == len {
            assert(t2[i].previous_version == latest);
            let m = lemma_chain_latest_index(t, t2, key, latest, n);
            assert(same_links(t2[m], t[m], t[m].is_latest_version && !(n > 0 && latest == Some(t[m].id))));
            assert(same_key(t2[m], t2[i]));
        } else {
            assert(t2[i].previous_version == Some(t2[i - 1].id));
            assert(t2[i - 1].source_provided_id == Some(key));
            assert(same_key(t2[i - 1], t2[i]));
        }
    }
}

/// Adding a chain of new versions of one identifier after its latest stored version, and
/// demoting that version when the chain is not empty, keeps the history linear.
proof fn lemma_history_add_chain(t: Seq<NewsRecordView>, t2: Seq<NewsRecordView>, key: Seq<char>, latest: Option<u128>, n: int)
    requires
        chain_added(t, t2, key, latest, n),
    ensures
        linear_history(t2),
{
    lemma_chain_ids(t, t2, key, latest, n);
    lemma_chain_one_latest(t, t2, key, latest, n);
    lemma_chain_distinct_previous(t, t2, key, latest, n);
    lemma_chain_nothing_after_latest(t, t2, key, latest, n);
    lemma_chain_has_latest(t, t2, key, latest, n);
    lemma_chain_links_inside(t, t2, key, latest, n);
}

/// A stored record after the writes of the plan `st` made at `now`: demoted when the plan
/// demotes it, and fetched at `now` when the plan refreshes it.
pub open spec fn written(r: NewsRecordView, st: PlanState, now: i128) -> NewsRecordView {
    NewsRecordView {
        is_latest_version: r.is_latest_version && !st.demote.contains(r.id),
        last_fetched_at: if st.refresh.contains(r.id) {
            now
        } else {
            r.last_fetched_at
        },
        ..r
    }
}

/// A record inserted by the plan `st`, after its demotions.
pub open spec fn inserted(r: NewsRecordView, st: PlanState) -> NewsRecordView {
    NewsRecordView { is_latest_version: r.is_latest_version && !st.demote.contains(r.id), ..r }
}

/// The records of a source after the plan `st` is carried out at `now` on its stored records
/// `rows`: the stored records are refreshed, the new ones inserted, the superseded ones demoted.
pub open spec fn table_after(rows: Seq<NewsRecordView>, st: PlanState, now: i128) -> Seq<NewsRecordView> {
    rows.map_values(|r: NewsRecordView| written(r, st, now)) + st.inserts.map_values(
        |r: NewsRecordView| inserted(r, st),
    )
}

/// Whether the lookups `ls` tell, for each group `gs` with a source-provided identifier, the
/// latest stored version among `rows` (none when no stored record of it is the latest).
pub open spec fn lookups_answer(rows: Seq<NewsRecordView>, gs: Seq<NewsGroupView>, ls: Seq<GroupLookupView>) -> bool {
    forall|i: int|
        0 <= i < gs.len() && (#[trigger] gs[i]).key is Some ==> match ls[i] {
            GroupLookupView::Versioned(None) => forall|j: int|
                0 <= j < rows.len() ==> !((#[trigger] rows[j]).source_provided_id == gs[i].key
                    && rows[j].is_latest_version),
            GroupLookupView::Versioned(Some(q)) => exists|j: int|
                0 <= j < rows.len() && (#[trigger] rows[j]).source_provided_id == gs[i].key
                    && rows[j].is_latest_version && rows[j].id == q.id,
            GroupLookupView::Unversioned(_) => false,
        }
}

/// Whether the identifiers `ids` are distinct and none of them is stored already.
pub open spec fn fresh_ids(rows: Seq<NewsRecordView>, ids: Seq<u128>) -> bool {
    &&& forall|a: int, b: int| 0 <= a < b < ids.len() ==> #[trigger] ids[a] != #[trigger] ids[b]
    &&& forall|a: int, j: int| 0 <= a < ids.len() && 0 <= j < rows.len() ==> #[trigger] ids[a] != #[trigger] rows[j].id
}

/// The new versions chained by `versions_fold` name the identifiers they use, and the stored
/// latest version before them is demoted once, when there is one and something is inserted.
proof fn lemma_versions_demote(
    st: PlanState,
    source: u128,
    items: Seq<InputNewsView>,
    total: int,
    ids: Seq<u128>,
    now: i128,
)
    requires
        items.len() <= total,
        st.prev is Some ==> !st.new.contains(st.prev->0),
        st.prev is Some ==> forall|a: int| st.used <= a < st.used + items.len() ==> #[trigger] ids[a] != st.prev->0,
    ensures
        ({
            let r = versions_fold(st, source, items, total, ids, now);
            &&& r.new == st.new + Seq::new(items.len(), |j: int| ids[st.used + j])
            &&& r.demote == st.demote + (if items.len() > 0 && st.prev is Some {
                seq![st.prev->0]
            } else {
                Seq::empty()
            })
        }),
    decreases items.len(),
{
    if items.len() > 0 {
        let init = items.drop_last();
        lemma_versions_demote(st, source, init, total, ids, now);
        lemma_versions_chain(st, source, init, total, ids, now);
        let r0 = versions_fold(st, source, init, total, ids, now);
        let r = versions_fold(st, source, items, total, ids, now);
        let id = ids[r0.used as int];
        assert(r0.used == st.used + init.len());
        let st1_new = r0.new.push(id);
        assert(st1_new =~= st.new + Seq::new(items.len(), |j: int| ids[st.used + j]));
        if init.len() > 0 {
            assert(r0.prev == Some(ids[st.used + init.len() - 1]));
            assert(st1_new[st.new.len() + init.len() - 1] == ids[st.used + init.len() - 1]);
            assert(st1_new.contains(ids[st.used + init.len() - 1]));
            assert(r.demote == r0.demote);
        } else {
            assert(r0 == st);
            if st.prev is Some {
                assert(!st1_new.contains(st.prev->0)) by {
                    if st1_new.contains(st.prev->0) {
                        let k = choose|k: int| 0 <= k < st1_new.len() && st1_new[k] == st.prev->0;
                        if k < st.new.len() {
                            assert(st.new[k] == st1_new[k]);
                        }
                    }
                }
            }
        }
        assert(r.new =~= st.new + Seq::new(items.len(), |j: int| ids[st.used + j]));
    } else {
        assert(st.new + Seq::new(0, |j: int| ids[st.used + j]) =~= st.new);
        assert(st.demote + Seq::<u128>::empty() =~= st.demote);
    }
}

/// Items without source-provided identifier add records without one, under the next
/// identifiers, and demote nothing.
proof fn lemma_unversioned_shape(
    st: PlanState,
    source: u128,
    items: Seq<InputNewsView>,
    es: Seq<Option<u128>>,
    ids: Seq<u128>,
    now: i128,
)
    requires
        forall|a: int| 0 <= a < items.len() ==> (#[trigger] items[a]).source_provided_id is None,
        st.used == st.inserts.len(),
        forall|m: int| 0 <= m < st.inserts.len() ==> (#[trigger] st.inserts[m]).id == ids[m],
    ensures
        ({
            let r = unversioned_fold(st, source, items, es, ids, now);
            &&& r.demote == st.demote
            &&& r.prev == st.prev
            &&& r.used == r.inserts.len()
            &&& st.inserts.len() <= r.inserts.len() <= st.inserts.len() + items.len()
            &&& forall|m: int| 0 <= m < st.inserts.len() ==> r.inserts[m] == st.inserts[m]
            &&& forall|m: int| 0 <= m < r.inserts.len() ==> (#[trigger] r.inserts[m]).id == ids[m]
            &&& forall|m: int|
                st.inserts.len() <= m < r.inserts.len() ==> (#[trigger] r.inserts[m]).source_provided_id is None
        }),
    decreases items.len(),
{
    if items.len() > 0 {
        let init = items.drop_last();
        assert forall|a: int| 0 <= a < init.len() implies (#[trigger] init[a]).source_provided_id is None by {
            assert(init[a] == items[a]);
        }
        lemma_unversioned_shape(st, source, init, es, ids, now);
        assert(items.last() == items[items.len() - 1]);
    }
}

/// The records after a plan: the stored ones written, then the inserted ones.
proof fn lemma_table(rows: Seq<NewsRecordView>, st: PlanState, now: i128)
    ensures
        table_after(rows, st, now).len() == rows.len() + st.inserts.len(),
        forall|m: int| 0 <= m < rows.len() ==> #[trigger] table_after(rows, st, now)[m] == written(rows[m], st, now),
        forall|m: int|
            rows.len() <= m < rows.len() + st.inserts.len() ==> #[trigger] table_after(rows, st, now)[m]
                == inserted(st.inserts[m - rows.len()], st),
{
}

proof fn lemma_contains_concat(a: Seq<u128>, b: Seq<u128>, x: u128)
    ensures
        (a + b).contains(x) <==> (a.contains(x) || b.contains(x)),
{
    if a.contains(x) {
        let k = choose|k: int| 0 <= k < a.len() && a[k] == x;
        assert((a + b)[k] == x);
    }
    if b.contains(x) {
        let k = choose|k: int| 0 <= k < b.len() && b[k] == x;
        assert((a + b)[a.len() + k] == x);
    }
    if (a + b).contains(x) {
        let k = choose|k: int| 0 <= k < (a + b).len() && (a + b)[k] == x;
        if k < a.len() {
            assert(a[k] == x);
        } else {
            assert(b[k - a.len()] == x);
        }
    }
}

/// What carrying out the plan `st` of the groups `gs` on the stored records `rows` gives, and
/// what the plan is made of: fresh identifiers in order, the identifiers of the groups, and
/// demotions of stored records of the groups' identifiers.
pub open spec fn plan_facts(rows: Seq<NewsRecordView>, gs: Seq<NewsGroupView>, ids: Seq<u128>, st: PlanState, now: i128) -> bool {
    &&& linear_history(table_after(rows, st, now))
    &&& plan_invariant(st)
    &&& st.prev is None
    &&& st.used == st.inserts.len()
    &&& forall|m: int| 0 <= m < st.inserts.len() ==> (#[trigger] st.inserts[m]).id == ids[m]
    &&& forall|m: int|
        0 <= m < st.inserts.len() && (#[trigger] st.inserts[m]).source_provided_id is Some ==> exists|i: int|
            0 <= i < gs.len() && gs[i].key == st.inserts[m].source_provided_id
    &&& forall|x: u128|
        #[trigger] st.demote.contains(x) ==> exists|j: int, i: int|
            0 <= j < rows.len() && 0 <= i < gs.len() && rows[j].id == x && gs[i].key is Some
                && rows[j].source_provided_id == gs[i].key
}

/// The conditions under which a plan is carried out: a linear history, well-formed groups
/// with the lookups that answer them, and fresh identifiers enough for every item.
pub open spec fn plan_context(
    rows: Seq<NewsRecordView>,
    gs: Seq<NewsGroupView>,
    ls: Seq<GroupLookupView>,
    ids: Seq<u128>,
) -> bool {
    &&& linear_history(rows)
    &&& groups_wf(gs)
    &&& gs.len() <= ls.len()
    &&& forall|i: int| 0 <= i < gs.len() ==> lookup_fits(#[trigger] gs[i], ls[i])
    &&& lookups_answer(rows, gs, ls)
    &&& fresh_ids(rows, ids)
    &&& total_items(gs) <= ids.len()
}

proof fn lemma_context_prefix(
    rows: Seq<NewsRecordView>,
    gs: Seq<NewsGroupView>,
    ls: Seq<GroupLookupView>,
    ids: Seq<u128>,
)
    requires
        plan_context(rows, gs, ls, ids),
        gs.len() > 0,
    ensures
        plan_context(rows, gs.drop_last(), ls, ids),
{
    let gp = gs.drop_last();
    assert forall|i: int| 0 <= i < gp.len() implies gp[i] == gs[i] by {}
    assert(groups_wf(gp)) by {
        assert forall|i: int, j: int| 0 <= i < j < gp.len() implies gp[i].key != gp[j].key by {
            assert(gs[i].key != gs[j].key);
        }
        assert forall|i: int| 0 <= i < gp.len() implies #[trigger] gp[i].items.len() > 0 by {
            assert(gs[i].items.len() > 0);
        }
        assert forall|i: int, j: int|
            0 <= i < gp.len() && 0 <= j < gp[i].items.len() implies #[trigger] gp[i].items[j].source_provided_id
                == gp[i].key by {
            assert(gs[i].items[j].source_provided_id == gs[i].key);
        }
        assert forall|i: int, a: int, b: int|
            0 <= i < gp.len() && 0 <= a < b < gp[i].items.len() implies #[trigger] gp[i].items[a]
                != #[trigger] gp[i].items[b] by {
            assert(gs[i].items[a] != gs[i].items[b]);
        }
    }
    assert forall|i: int| 0 <= i < gp.len() implies lookup_fits(#[trigger] gp[i], ls[i]) by {
        assert(lookup_fits(gs[i], ls[i]));
    }
    assert(lookups_answer(rows, gp, ls)) by {
        assert forall|i: int| 0 <= i < gp.len() && (#[trigger] gp[i]).key is Some implies match ls[i] {
            GroupLookupView::Versioned(None) => forall|j: int|
                0 <= j < rows.len() ==> !((#[trigger] rows[j]).source_provided_id == gp[i].key
                    && rows[j].is_latest_version),
            GroupLookupView::Versioned(Some(q)) => exists|j: int|
                0 <= j < rows.len() && (#[trigger] rows[j]).source_provided_id == gp[i].key
                    && rows[j].is_latest_version && rows[j].id == q.id,
            GroupLookupView::Unversioned(_) => false,
        } by {
            assert(gs[i].key is Some);
        }
    }
}

/// The items of a group sorted by version keep the group's identifier.
proof fn lemma_sorted_keys(items: Seq<InputNewsView>, key: Option<Seq<char>>)
    requires
        forall|a: int| 0 <= a < items.len() ==> (#[trigger] items[a]).source_provided_id == key,
    ensures
        sort_spec(items).len() == items.len(),
        forall|a: int| 0 <= a < sort_spec(items).len() ==> (#[trigger] sort_spec(items)[a]).source_provided_id == key,
{
    broadcast use vstd::seq_lib::group_to_multiset_ensures;

    lemma_sort_len(items);
    law_versions_sorted(items);
    let sorted = sort_spec(items);
    assert forall|a: int| 0 <= a < sorted.len() implies (#[trigger] sorted[a]).source_provided_id == key by {
        assert(sorted.contains(sorted[a]));
        assert(sorted.to_multiset().count(sorted[a]) > 0);
        assert(items.contains(sorted[a]));
        let b = choose|b: int| 0 <= b < items.len() && items[b] == sorted[a];
        assert(items[b].source_provided_id == key);
    }
}

/// The stored latest version that a lookup tells of.
pub open spec fn lookup_latest(l: GroupLookupView) -> Option<u128> {
    match l {
        GroupLookupView::Versioned(Some(q)) => Some(q.id),
        _ => None,
    }
}

/// Whether the plan `st2` is `st` with a chain of new versions of `key` added after `latest`
/// under the next fresh identifiers, `latest` being demoted when the chain is not empty.
pub open spec fn chain_grown(st: PlanState, st2: PlanState, key: Seq<char>, latest: Option<u128>, ids: Seq<u128>) -> bool {
    &&& st2.inserts.len() >= st.inserts.len()
    &&& forall|m: int| 0 <= m < st.inserts.len() ==> st2.inserts[m] == st.inserts[m]
    &&& forall|m: int|
        st.inserts.len() <= m < st2.inserts.len() ==> {
            &&& (#[trigger] st2.inserts[m]).source_provided_id == Some(key)
            &&& st2.inserts[m].id == ids[m]
            &&& st2.inserts[m].previous_version == (if m == st.inserts.len() {
                latest
            } else {
                Some(ids[m - 1])
            })
            &&& st2.inserts[m].is_latest_version == (m == st2.inserts.len() - 1)
        }
    &&& st2.demote == st.demote + (if st2.inserts.len() > st.inserts.len() && latest is Some {
        seq![latest->0]
    } else {
        Seq::empty()
    })
}

/// What a group with a source-provided identifier adds to the plan so far.
#[verifier::spinoff_prover]
#[verifier::rlimit(60)]
proof fn lemma_versioned_shape(
    source: u128,
    rows: Seq<NewsRecordView>,
    gs: Seq<NewsGroupView>,
    ls: Seq<GroupLookupView>,
    ids: Seq<u128>,
    now: i128,
)
    requires
        gs.len() > 0,
        plan_context(rows, gs, ls, ids),
        plan_facts(rows, gs.drop_last(), ids, plan_spec(source, gs.drop_last(), ls, ids, now), now),
        gs.last().key is Some,
        lookup_latest(ls[gs.len() - 1]) is Some ==> forall|a: int|
            0 <= a < ids.len() ==> #[trigger] ids[a] != lookup_latest(ls[gs.len() - 1])->0,
    ensures
        ({
            let st = plan_spec(source, gs.drop_last(), ls, ids, now);
            let st4 = plan_spec(source, gs, ls, ids, now);
            &&& chain_grown(st, st4, gs.last().key->0, lookup_latest(ls[gs.len() - 1]), ids)
            &&& st4.prev is None
            &&& st4.used == st4.inserts.len()
            &&& st4.used <= ids.len()
            &&& st4.inserts.len() > st.inserts.len() ==> record_version_key(st4.inserts.last()) == version_key(
                sort_spec(gs.last().items).last(),
            )
        }),
{
    let n = gs.len() - 1;
    let gp = gs.drop_last();
    let st = plan_spec(source, gp, ls, ids, now);
    let g = gs[n];
    let k = g.key->0;
    assert(lookup_fits(gs[n], ls[n]));
    let p = match ls[n] {
        GroupLookupView::Versioned(p) => p,
        GroupLookupView::Unversioned(_) => None,
    };
    assert(ls[n] == GroupLookupView::Versioned(p));
    assert forall|a: int| 0 <= a < g.items.len() implies (#[trigger] g.items[a]).source_provided_id == g.key by {
        assert(gs[n].items[a].source_provided_id == gs[n].key);
    }
    lemma_sorted_keys(g.items, g.key);
    assert(g.items.len() > 0);
    let sorted = sort_spec(g.items);
    let matched = p is Some && unchanged(p->0, sorted[0]);
    let st1 = if matched { touch_step(st, p->0.id) } else { st };
    let rest = if matched { sorted.drop_first() } else { sorted };
    let pid_opt = lookup_latest(ls[n]);
    let st2 = PlanState { prev: pid_opt, ..st1 };
    let f = rest.len() as int;
    let used = st.used as int;
    assert forall|a: int| 0 <= a < f implies (#[trigger] rest[a]).source_provided_id == Some(k) by {
        if matched {
            assert(rest[a] == sorted[a + 1]);
        }
    }
    lemma_versions_chain(st2, source, rest, f, ids, now);
    let st3 = versions_fold(st2, source, rest, f, ids, now);
    let st4 = plan_spec(source, gs, ls, ids, now);
    assert(st4 == PlanState { prev: None, ..st3 });
    lemma_plan_used(source, gs, ls, ids, now);
    if let Some(pid) = pid_opt {
        assert(!st2.new.contains(pid)) by {
            if st2.new.contains(pid) {
                let c = choose|c: int| 0 <= c < st2.new.len() && st2.new[c] == pid;
                assert(st.new[c] == st.inserts[c].id);
                assert(st.inserts[c].id == ids[c]);
            }
        }
    }
    lemma_versions_demote(st2, source, rest, f, ids, now);
    assert forall|m: int| used <= m < st4.inserts.len() implies {
        &&& (#[trigger] st4.inserts[m]).source_provided_id == Some(k)
        &&& st4.inserts[m].id == ids[m]
        &&& st4.inserts[m].previous_version == (if m == used { pid_opt } else { Some(ids[m - 1]) })
        &&& st4.inserts[m].is_latest_version == (m == st4.inserts.len() - 1)
    } by {
        let j = m - used;
        assert(st3.inserts[st2.inserts.len() + j] == record_of(
            rest[j],
            ids[st2.used + j],
            source,
            j == f - 1,
            if j == 0 { st2.prev } else { Some(ids[st2.used + j - 1]) },
            now,
        ));
    }
    if f > 0 {
        let j = f - 1;
        assert(st3.inserts[st2.inserts.len() + j] == record_of(
            rest[j],
            ids[st2.used + j],
            source,
            j == f - 1,
            if j == 0 { st2.prev } else { Some(ids[st2.used + j - 1]) },
            now,
        ));
        assert(rest[j] == sorted.last());
        assert(st4.inserts.last() == st3.inserts[st2.inserts.len() + j]);
    }
}

/// Whether the table after the plan `st` is ready for a chain of new versions of `key`: its
/// history is linear, nothing of `key` was planned yet, the stored latest version of `key` is
/// `latest`, and the plan's demotions and identifiers leave `key` and the fresh identifiers alone.
pub open spec fn chain_ready(
    rows: Seq<NewsRecordView>,
    st: PlanState,
    key: Seq<char>,
    latest: Option<u128>,
    ids: Seq<u128>,
    now: i128,
) -> bool {
    &&& linear_history(table_after(rows, st, now))
    &&& fresh_ids(rows, ids)
    &&& st.inserts.len() <= ids.len()
    &&& forall|m: int|
        0 <= m < st.inserts.len() ==> (#[trigger] st.inserts[m]).id == ids[m] && st.inserts[m].source_provided_id
            != Some(key)
    &&& forall|x: u128|
        #[trigger] st.demote.contains(x) ==> exists|j: int|
            0 <= j < rows.len() && rows[j].id == x && rows[j].source_provided_id != Some(key)
    &&& match latest {
        None => forall|j: int|
            0 <= j < rows.len() ==> !((#[trigger] rows[j]).source_provided_id == Some(key) && rows[j].is_latest_version),
        Some(pid) => exists|j: int|
            0 <= j < rows.len() && (#[trigger] rows[j]).source_provided_id == Some(key) && rows[j].is_latest_version
                && rows[j].id == pid,
    }
}

/// The stored latest version of `key` is still the latest one of the table before the chain.
#[verifier::spinoff_prover]
proof fn lemma_ready_latest(
    rows: Seq<NewsRecordView>,
    st: PlanState,
    key: Seq<char>,
    latest: Option<u128>,
    ids: Seq<u128>,
    now: i128,
)
    requires
        chain_ready(rows, st, key, latest, ids, now),
    ensures
        ({
            let t = table_after(rows, st, now);
            match latest {
                None => forall|m: int| 0 <= m < t.len() ==> (#[trigger] t[m]).source_provided_id != Some(key),
                Some(pid) => exists|m: int|
                    0 <= m < t.len() && (#[trigger] t[m]).source_provided_id == Some(key) && t[m].is_latest_version
                        && t[m].id == pid,
            }
        }),
{
    let t = table_after(rows, st, now);
    let rl = rows.len() as int;
    lemma_table(rows, st, now);
    match latest {
        None => {
            assert forall|m: int| 0 <= m < t.len() implies (#[trigger] t[m]).source_provided_id != Some(key) by {
                if t[m].source_provided_id == Some(key) {
                    if m >= rl {
                        assert(st.inserts[m - rl].source_provided_id != Some(key));
                    }
                    let w = choose|w: int| 0 <= w < t.len() && same_key(#[trigger] t[w], t[m]) && t[w].is_latest_version;
                    if w >= rl {
                        assert(st.inserts[w - rl].source_provided_id != Some(key));
                    }
                    assert(!(rows[w].source_provided_id == Some(key) && rows[w].is_latest_version));
                }
            }
        },
        Some(pid) => {
            let j = choose|j: int|
                0 <= j < rows.len() && (#[trigger] rows[j]).source_provided_id == Some(key) && rows[j].is_latest_version
                    && rows[j].id == pid;
            if st.demote.contains(pid) {
                let j2 = choose|j2: int| 0 <= j2 < rows.len() && rows[j2].id == pid && rows[j2].source_provided_id != Some(key);
                if j2 < j {
                    assert(t[j2].id != t[j].id);
                } else if j < j2 {
                    assert(t[j].id != t[j2].id);
                }
            }
            assert(t[j].source_provided_id == Some(key) && t[j].is_latest_version && t[j].id == pid);
        },
    }
}

/// The records before the chain keep their links; only the stored latest version is demoted.
#[verifier::spinoff_prover]
proof fn lemma_grown_old_part(
    rows: Seq<NewsRecordView>,
    st: PlanState,
    st2: PlanState,
    key: Seq<char>,
    latest: Option<u128>,
    ids: Seq<u128>,
    now: i128,
)
    requires
        chain_grown(st, st2, key, latest, ids),
    ensures
        ({
            let t = table_after(rows, st, now);
            let t2 = table_after(rows, st2, now);
            let f = st2.inserts.len() - st.inserts.len();
            forall|m: int|
                0 <= m < t.len() ==> same_links(
                    #[trigger] t2[m],
                    t[m],
                    t[m].is_latest_version && !(f > 0 && latest == Some(t[m].id)),
                )
        }),
{
    let t = table_after(rows, st, now);
    let t2 = table_after(rows, st2, now);
    let f = st2.inserts.len() - st.inserts.len();
    let rl = rows.len() as int;
    lemma_table(rows, st, now);
    lemma_table(rows, st2, now);
    let d: Seq<u128> = if f > 0 && latest is Some { seq![latest->0] } else { Seq::empty() };
    assert forall|m: int| 0 <= m < t.len() implies same_links(
        #[trigger] t2[m],
        t[m],
        t[m].is_latest_version && !(f > 0 && latest == Some(t[m].id)),
    ) by {
        let x = t[m].id;
        lemma_contains_concat(st.demote, d, x);
        if m >= rl {
            assert(st2.inserts[m - rl] == st.inserts[m - rl]);
        }
        if d.contains(x) {
            assert(d[0] == x);
        }
        if f > 0 && latest == Some(x) {
            assert(d[0] == x);
        }
    }
}

/// The records of the chain are new versions of `key` under fresh identifiers.
#[verifier::spinoff_prover]
#[verifier::rlimit(40)]
proof fn lemma_grown_new_part(
    rows: Seq<NewsRecordView>,
    st: PlanState,
    st2: PlanState,
    key: Seq<char>,
    latest: Option<u128>,
    ids: Seq<u128>,
    now: i128,
)
    requires
        chain_ready(rows, st, key, latest, ids, now),
        chain_grown(st, st2, key, latest, ids),
        st2.inserts.len() <= ids.len(),
    ensures
        ({
            let t = table_after(rows, st, now);
            let t2 = table_after(rows, st2, now);
            &&& forall|m: int|
                t.len() <= m < t2.len() ==> {
                    &&& (#[trigger] t2[m]).source_provided_id == Some(key)
                    &&& t2[m].previous_version == (if m == t.len() {
                        latest
                    } else {
                        Some(t2[m - 1].id)
                    })
                    &&& t2[m].is_latest_version == (m == t2.len() - 1)
                }
            &&& forall|i: int, j: int|
                0 <= i < j < t2.len() && t.len() <= j ==> #[trigger] t2[i].id != #[trigger] t2[j].id
        }),
{
    let t = table_after(rows, st, now);
    let t2 = table_after(rows, st2, now);
    let f = st2.inserts.len() - st.inserts.len();
    let rl = rows.len() as int;
    let sl = st.inserts.len() as int;
    lemma_table(rows, st, now);
    lemma_table(rows, st2, now);
    let d: Seq<u128> = if f > 0 && latest is Some { seq![latest->0] } else { Seq::empty() };
    assert forall|a: int| 0 <= a < ids.len() implies !(#[trigger] st2.demote.contains(ids[a])) by {
        lemma_contains_concat(st.demote, d, ids[a]);
        if st.demote.contains(ids[a]) {
            let j = choose|j: int| 0 <= j < rows.len() && rows[j].id == ids[a] && rows[j].source_provided_id != Some(key);
            assert(ids[a] != rows[j].id);
        }
        if d.contains(ids[a]) {
            assert(d[0] == ids[a]);
            let j = choose|j: int|
                0 <= j < rows.len() && (#[trigger] rows[j]).source_provided_id == Some(key) && rows[j].is_latest_version
                    && rows[j].id == latest->0;
            assert(ids[a] != rows[j].id);
        }
    }
    assert forall|m: int| t.len() <= m < t2.len() implies {
        &&& (#[trigger] t2[m]).source_provided_id == Some(key)
        &&& t2[m].previous_version == (if m == t.len() { latest } else { Some(t2[m - 1].id) })
        &&& t2[m].is_latest_version == (m == t2.len() - 1)
    } by {
        let i = m - rl;
        assert(st2.inserts[i].id == ids[i]);
        assert(!st2.demote.contains(ids[i]));
        if m > t.len() {
            assert(st2.inserts[i - 1].id == ids[i - 1]) by {
                if i - 1 < sl {
                    assert(st2.inserts[i - 1] == st.inserts[i - 1]);
                }
            }
        }
    }
    assert forall|i: int, j: int| 0 <= i < j < t2.len() && t.len() <= j implies #[trigger] t2[i].id != #[trigger] t2[j].id by {
        assert(t2[j].id == ids[j - rl]);
        if i < rl {
            assert(ids[j - rl] != rows[i].id);
        } else {
            if i - rl < sl {
                assert(st2.inserts[i - rl] == st.inserts[i - rl]);
            }
            assert(t2[i].id == ids[i - rl]);
            assert(ids[i - rl] != ids[j - rl]);
        }
    }
}

/// A group with a source-provided identifier keeps the plan's facts.
#[verifier::spinoff_prover]
#[verifier::rlimit(60)]
proof fn lemma_step_versioned(
    source: u128,
    rows: Seq<NewsRecordView>,
    gs: Seq<NewsGroupView>,
    ls: Seq<GroupLookupView>,
    ids: Seq<u128>,
    now: i128,
)
    requires
        gs.len() > 0,
        plan_context(rows, gs, ls, ids),
        plan_facts(rows, gs.drop_last(), ids, plan_spec(source, gs.drop_last(), ls, ids, now), now),
        gs.last().key is Some,
    ensures
        plan_facts(rows, gs, ids, plan_spec(source, gs, ls, ids, now), now),
{
    let n = gs.len() - 1;
    let gp = gs.drop_last();
    let st = plan_spec(source, gp, ls, ids, now);
    let st4 = plan_spec(source, gs, ls, ids, now);
    let k = gs[n].key->0;
    let latest = lookup_latest(ls[n]);
    assert(gs.last() == gs[n]);
    assert(lookup_fits(gs[n], ls[n]));
    assert(gs[n].key is Some);
    assert(ls[n] is Versioned);
    if let Some(pid) = latest {
        let j = choose|j: int|
            0 <= j < rows.len() && (#[trigger] rows[j]).source_provided_id == gs[n].key && rows[j].is_latest_version
                && rows[j].id == pid;
        assert forall|a: int| 0 <= a < ids.len() implies #[trigger] ids[a] != pid by {
            assert(ids[a] != rows[j].id);
        }
    }
    lemma_versioned_shape(source, rows, gs, ls, ids, now);
    assert forall|i: int| 0 <= i < gp.len() implies gp[i] == gs[i] && gs[i].key != gs[n].key by {}
    assert forall|m: int| 0 <= m < st.inserts.len() implies (#[trigger] st.inserts[m]).id == ids[m]
        && st.inserts[m].source_provided_id != Some(k) by {
        if st.inserts[m].source_provided_id is Some {
            let i = choose|i: int| 0 <= i < gp.len() && gp[i].key == st.inserts[m].source_provided_id;
        }
    }
    assert forall|x: u128| #[trigger] st.demote.contains(x) implies exists|j: int|
        0 <= j < rows.len() && rows[j].id == x && rows[j].source_provided_id != Some(k) by {
        let (j, i) = choose|j: int, i: int|
            0 <= j < rows.len() && 0 <= i < gp.len() && rows[j].id == x && gp[i].key is Some
                && rows[j].source_provided_id == gp[i].key;
    }
    assert(match latest {
        None => forall|j: int|
            0 <= j < rows.len() ==> !((#[trigger] rows[j]).source_provided_id == Some(k) && rows[j].is_latest_version),
        Some(pid) => exists|j: int|
            0 <= j < rows.len() && (#[trigger] rows[j]).source_provided_id == Some(k) && rows[j].is_latest_version
                && rows[j].id == pid,
    });
    assert(chain_ready(rows, st, k, latest, ids, now));
    let t = table_after(rows, st, now);
    let t2 = table_after(rows, st4, now);
    let f = st4.inserts.len() - st.inserts.len();
    lemma_table(rows, st, now);
    lemma_table(rows, st4, now);
    lemma_ready_latest(rows, st, k, latest, ids, now);
    lemma_grown_old_part(rows, st, st4, k, latest, ids, now);
    lemma_grown_new_part(rows, st, st4, k, latest, ids, now);
    assert(chain_added(t, t2, k, latest, f));
    lemma_history_add_chain(t, t2, k, latest, f);
    lemma_plan_keeps_invariant(source, gs, ls, ids, now);
    assert forall|m: int| 0 <= m < st4.inserts.len() implies (#[trigger] st4.inserts[m]).id == ids[m] by {
        if m < st.inserts.len() {
            assert(st4.inserts[m] == st.inserts[m]);
        }
    }
    assert forall|m: int|
        0 <= m < st4.inserts.len() && (#[trigger] st4.inserts[m]).source_provided_id is Some implies exists|i: int|
            0 <= i < gs.len() && gs[i].key == st4.inserts[m].source_provided_id by {
        if m < st.inserts.len() {
            assert(st4.inserts[m] == st.inserts[m]);
            let i = choose|i: int| 0 <= i < gp.len() && gp[i].key == st.inserts[m].source_provided_id;
            assert(gs[i] == gp[i]);
        } else {
            assert(gs[n].key == st4.inserts[m].source_provided_id);
        }
    }
    let d: Seq<u128> = if f > 0 && latest is Some { seq![latest->0] } else { Seq::empty() };
    assert forall|x: u128| #[trigger] st4.demote.contains(x) implies exists|j: int, i: int|
        0 <= j < rows.len() && 0 <= i < gs.len() && rows[j].id == x && gs[i].key is Some
            && rows[j].source_provided_id == gs[i].key by {
        lemma_contains_concat(st.demote, d, x);
        if st.demote.contains(x) {
            let (j, i) = choose|j: int, i: int|
                0 <= j < rows.len() && 0 <= i < gp.len() && rows[j].id == x && gp[i].key is Some
                    && rows[j].source_provided_id == gp[i].key;
            assert(gs[i] == gp[i]);
        } else {
            assert(d[0] == x);
            let j = choose|j: int|
                0 <= j < rows.len() && (#[trigger] rows[j]).source_provided_id == Some(k) && rows[j].is_latest_version
                    && rows[j].id == latest->0;
            assert(rows[j].id == x && gs[n].key is Some && rows[j].source_provided_id == gs[n].key);
        }
    }
}

/// A group without source-provided identifier keeps the plan's facts.
#[verifier::spinoff_prover]
#[verifier::rlimit(60)]
proof fn lemma_step_unversioned(
    source: u128,
    rows: Seq<NewsRecordView>,
    gs: Seq<NewsGroupView>,
    ls: Seq<GroupLookupView>,
    ids: Seq<u128>,
    now: i128,
)
    requires
        gs.len() > 0,
        plan_context(rows, gs, ls, ids),
        plan_facts(rows, gs.drop_last(), ids, plan_spec(source, gs.drop_last(), ls, ids, now), now),
        gs.last().key is None,
    ensures
        plan_facts(rows, gs, ids, plan_spec(source, gs, ls, ids, now), now),
{
    let n = gs.len() - 1;
    let gp = gs.drop_last();
    let st = plan_spec(source, gp, ls, ids, now);
    let st4 = plan_spec(source, gs, ls, ids, now);
    let g = gs[n];
    assert(gs.last() == g);
    assert(lookup_fits(gs[n], ls[n]));
    let es = match ls[n] {
        GroupLookupView::Unversioned(es) => es,
        GroupLookupView::Versioned(_) => Seq::empty(),
    };
    assert(ls[n] == GroupLookupView::Unversioned(es));
    assert forall|a: int| 0 <= a < g.items.len() implies (#[trigger] g.items[a]).source_provided_id is None by {
        assert(gs[n].items[a].source_provided_id == gs[n].key);
    }
    lemma_unversioned_shape(st, source, g.items, es, ids, now);
    assert(st4 == unversioned_fold(st, source, g.items, es, ids, now));
    lemma_plan_used(source, gs, ls, ids, now);
    let t = table_after(rows, st, now);
    let t2 = table_after(rows, st4, now);
    let rl = rows.len() as int;
    let f = st4.inserts.len() - st.inserts.len();
    lemma_table(rows, st, now);
    lemma_table(rows, st4, now);
    assert forall|m: int| 0 <= m < t.len() implies same_links(#[trigger] t2[m], t[m], t[m].is_latest_version) by {
        if m >= rl {
            assert(st4.inserts[m - rl] == st.inserts[m - rl]);
        }
    }
    assert forall|i: int, j: int| 0 <= i < j < t2.len() && t.len() <= j implies #[trigger] t2[i].id != #[trigger] t2[j].id by {
        assert(t2[j].id == ids[j - rl]);
        if i < rl {
            assert(ids[j - rl] != rows[i].id);
        } else {
            assert(t2[i].id == ids[i - rl]);
            assert(ids[i - rl] != ids[j - rl]);
        }
    }
    lemma_history_add_unkeyed(t, t2, f);
    lemma_plan_keeps_invariant(source, gs, ls, ids, now);
    assert forall|m: int|
        0 <= m < st4.inserts.len() && (#[trigger] st4.inserts[m]).source_provided_id is Some implies exists|i: int|
            0 <= i < gs.len() && gs[i].key == st4.inserts[m].source_provided_id by {
        assert(m < st.inserts.len());
        assert(st4.inserts[m] == st.inserts[m]);
        let i = choose|i: int| 0 <= i < gp.len() && gp[i].key == st.inserts[m].source_provided_id;
        assert(gs[i] == gp[i]);
    }
    assert forall|x: u128| #[trigger] st4.demote.contains(x) implies exists|j: int, i: int|
        0 <= j < rows.len() && 0 <= i < gs.len() && rows[j].id == x && gs[i].key is Some
            && rows[j].source_provided_id == gs[i].key by {
        let (j, i) = choose|j: int, i: int|
            0 <= j < rows.len() && 0 <= i < gp.len() && rows[j].id == x && gp[i].key is Some
                && rows[j].source_provided_id == gp[i].key;
        assert(gs[i] == gp[i]);
    }
}

/// Planning the groups one after the other keeps the plan's facts, the linear history among them.
proof fn lemma_plan_table(
    source: u128,
    rows: Seq<NewsRecordView>,
    gs: Seq<NewsGroupView>,
    ls: Seq<GroupLookupView>,
    ids: Seq<u128>,
    now: i128,
)
    requires
        plan_context(rows, gs, ls, ids),
    ensures
        plan_facts(rows, gs, ids, plan_spec(source, gs, ls, ids, now), now),
    decreases gs.len(),
{
    if gs.len() == 0 {
        let st = plan_spec(source, gs, ls, ids, now);
        lemma_plan_keeps_invariant(source, gs, ls, ids, now);
        lemma_table(rows, st, now);
        assert forall|m: int| 0 <= m < rows.len() implies #[trigger] table_after(rows, st, now)[m] == rows[m] by {
            vstd::seq_lib::lemma_seq_empty_contains_nothing::<u128>(rows[m].id);
        }
        assert(table_after(rows, st, now) =~= rows);
        assert forall|x: u128| #[trigger] st.demote.contains(x) implies exists|j: int, i: int|
            0 <= j < rows.len() && 0 <= i < gs.len() && rows[j].id == x && gs[i].key is Some
                && rows[j].source_provided_id == gs[i].key by {
            vstd::seq_lib::lemma_seq_empty_contains_nothing::<u128>(x);
        }
    } else {
        lemma_context_prefix(rows, gs, ls, ids);
        lemma_plan_table(source, rows, gs.drop_last(), ls, ids, now);
        if gs.last().key is Some {
            lemma_step_versioned(source, rows, gs, ls, ids, now);
        } else {
            lemma_step_unversioned(source, rows, gs, ls, ids, now);
        }
    }
}

/// The key a stored record's versions are ordered by: its update time, else its publication
/// time.
pub open spec fn record_version_key(r: NewsRecordView) -> Option<i128> {
    match r.updated_at {
        Some(t) => Some(t),
        None => r.published_at,
    }
}

/// Whether the record `r` comes no earlier, in the versions order, than any of the items.
pub open spec fn greatest_version(items: Seq<InputNewsView>, r: NewsRecordView) -> bool {
    forall|a: int| 0 <= a < items.len() ==> key_le(version_key(#[trigger] items[a]), record_version_key(r))
}

/// The last of the sorted items comes no earlier than any item.
proof fn lemma_sorted_last_greatest(items: Seq<InputNewsView>)
    requires
        items.len() > 0,
    ensures
        forall|a: int| 0 <= a < items.len() ==> key_le(version_key(#[trigger] items[a]), version_key(sort_spec(items).last())),
{
    broadcast use vstd::seq_lib::group_to_multiset_ensures;

    lemma_sort_len(items);
    law_versions_sorted(items);
    let sorted = sort_spec(items);
    let last = sorted.len() - 1;
    assert forall|a: int| 0 <= a < items.len() implies key_le(version_key(#[trigger] items[a]), version_key(sorted.last())) by {
        assert(items.contains(items[a]));
        assert(items.to_multiset().count(items[a]) > 0);
        assert(sorted.contains(items[a]));
        let b = choose|b: int| 0 <= b < sorted.len() && sorted[b] == items[a];
        if b < last {
            assert(key_le(version_key(sorted[b]), version_key(sorted[last])));
        }
    }
}

/// Whether, for each group `gs` with a source-provided identifier of which the plan `st`
/// inserts records, one of them is the latest version and comes no earlier than any of the
/// group's items.
pub open spec fn plan_greatest(gs: Seq<NewsGroupView>, st: PlanState) -> bool {
    forall|i: int|
        0 <= i < gs.len() && (#[trigger] gs[i]).key is Some && (exists|m: int|
            0 <= m < st.inserts.len() && st.inserts[m].source_provided_id == gs[i].key) ==> exists|m: int|
            0 <= m < st.inserts.len() && (#[trigger] st.inserts[m]).source_provided_id == gs[i].key
                && st.inserts[m].is_latest_version && greatest_version(gs[i].items, st.inserts[m])
}

/// Planning the groups one after the other leaves, for each identifier with new versions, a
/// latest one that comes no earlier than any fetched version.
#[verifier::spinoff_prover]
#[verifier::rlimit(60)]
proof fn lemma_plan_greatest(
    source: u128,
    rows: Seq<NewsRecordView>,
    gs: Seq<NewsGroupView>,
    ls: Seq<GroupLookupView>,
    ids: Seq<u128>,
    now: i128,
)
    requires
        plan_context(rows, gs, ls, ids),
    ensures
        plan_greatest(gs, plan_spec(source, gs, ls, ids, now)),
    decreases gs.len(),
{
    if gs.len() > 0 {
        let n = gs.len() - 1;
        let gp = gs.drop_last();
        let st = plan_spec(source, gp, ls, ids, now);
        let st4 = plan_spec(source, gs, ls, ids, now);
        lemma_context_prefix(rows, gs, ls, ids);
        lemma_plan_greatest(source, rows, gp, ls, ids, now);
        lemma_plan_table(source, rows, gp, ls, ids, now);
        assert(gs.last() == gs[n]);
        assert forall|i: int| 0 <= i < gp.len() implies gp[i] == gs[i] && gs[i].key != gs[n].key by {}
        assert(lookup_fits(gs[n], ls[n]));
        let sl = st.inserts.len() as int;
        if gs[n].key is Some {
            let latest = lookup_latest(ls[n]);
            if let Some(pid) = latest {
                let j = choose|j: int|
                    0 <= j < rows.len() && (#[trigger] rows[j]).source_provided_id == gs[n].key
                        && rows[j].is_latest_version && rows[j].id == pid;
                assert forall|a: int| 0 <= a < ids.len() implies #[trigger] ids[a] != pid by {
                    assert(ids[a] != rows[j].id);
                }
            }
            lemma_versioned_shape(source, rows, gs, ls, ids, now);
            assert(gs[n].items.len() > 0);
            lemma_sorted_last_greatest(gs[n].items);
            assert forall|i: int|
                0 <= i < gs.len() && (#[trigger] gs[i]).key is Some && (exists|m: int|
                    0 <= m < st4.inserts.len() && st4.inserts[m].source_provided_id == gs[i].key) implies exists|m: int|
                    0 <= m < st4.inserts.len() && (#[trigger] st4.inserts[m]).source_provided_id == gs[i].key
                        && st4.inserts[m].is_latest_version && greatest_version(gs[i].items, st4.inserts[m]) by {
                let m = choose|m: int| 0 <= m < st4.inserts.len() && st4.inserts[m].source_provided_id == gs[i].key;
                if i < n {
                    if m >= sl {
                        assert(st4.inserts[m].source_provided_id == gs[n].key);
                    }
                    assert(st4.inserts[m] == st.inserts[m]);
                    assert(gp[i].key is Some);
                    let m2 = choose|m2: int|
                        0 <= m2 < st.inserts.len() && (#[trigger] st.inserts[m2]).source_provided_id == gp[i].key
                            && st.inserts[m2].is_latest_version && greatest_version(gp[i].items, st.inserts[m2]);
                    assert(st4.inserts[m2] == st.inserts[m2]);
                } else {
                    if m < sl {
                        assert(st4.inserts[m] == st.inserts[m]);
                        let i2 = choose|i2: int| 0 <= i2 < gp.len() && gp[i2].key == st.inserts[m].source_provided_id;
                        assert(gs[i2].key != gs[n].key);
                    }
                    let last = st4.inserts.len() - 1;
                    assert(st4.inserts[last] == st4.inserts.last());
                    assert(st4.inserts[last].source_provided_id == gs[n].key);
                    assert(greatest_version(gs[i].items, st4.inserts[last]));
                }
            }
        } else {
            let es = match ls[n] {
                GroupLookupView::Unversioned(es) => es,
                GroupLookupView::Versioned(_) => Seq::empty(),
            };
            assert(ls[n] == GroupLookupView::Unversioned(es));
            assert forall|a: int| 0 <= a < gs[n].items.len() implies (#[trigger] gs[n].items[a]).source_provided_id is None by {
                assert(gs[n].items[a].source_provided_id == gs[n].key);
            }
            lemma_unversioned_shape(st, source, gs[n].items, es, ids, now);
            assert(st4 == unversioned_fold(st, source, gs[n].items, es, ids, now));
            assert forall|i: int|
                0 <= i < gs.len() && (#[trigger] gs[i]).key is Some && (exists|m: int|
                    0 <= m < st4.inserts.len() && st4.inserts[m].source_provided_id == gs[i].key) implies exists|m: int|
                    0 <= m < st4.inserts.len() && (#[trigger] st4.inserts[m]).source_provided_id == gs[i].key
                        && st4.inserts[m].is_latest_version && greatest_version(gs[i].items, st4.inserts[m]) by {
                let m = choose|m: int| 0 <= m < st4.inserts.len() && st4.inserts[m].source_provided_id == gs[i].key;
                assert(i < n);
                assert(m < sl);
                assert(st4.inserts[m] == st.inserts[m]);
                assert(gp[i].key is Some);
                let m2 = choose|m2: int|
                    0 <= m2 < st.inserts.len() && (#[trigger] st.inserts[m2]).source_provided_id == gp[i].key
                        && st.inserts[m2].is_latest_version && greatest_version(gp[i].items, st.inserts[m2]);
                assert(st4.inserts[m2] == st.inserts[m2]);
            }
        }
    }
}

/// The latest new version of each identifier stays the latest once the plan is carried out:
/// the plan demotes stored records only, never the fresh ones it inserts.
#[verifier::spinoff_prover]
proof fn lemma_greatest_in_table(
    rows: Seq<NewsRecordView>,
    gs: Seq<NewsGroupView>,
    ids: Seq<u128>,
    st: PlanState,
    now: i128,
)
    requires
        plan_greatest(gs, st),
        fresh_ids(rows, ids),
        st.inserts.len() <= ids.len(),
        forall|m: int| 0 <= m < st.inserts.len() ==> (#[trigger] st.inserts[m]).id == ids[m],
        forall|x: u128| #[trigger] st.demote.contains(x) ==> exists|j: int| 0 <= j < rows.len() && rows[j].id == x,
    ensures
        ({
            let t = table_after(rows, st, now);
            forall|i: int|
                0 <= i < gs.len() && (#[trigger] gs[i]).key is Some && (exists|m: int|
                    rows.len() <= m < t.len() && t[m].source_provided_id == gs[i].key) ==> exists|m: int|
                    rows.len() <= m < t.len() && (#[trigger] t[m]).source_provided_id == gs[i].key
                        && t[m].is_latest_version && greatest_version(gs[i].items, t[m])
        }),
{
    let t = table_after(rows, st, now);
    let rl = rows.len() as int;
    lemma_table(rows, st, now);
    assert forall|i: int|
        0 <= i < gs.len() && (#[trigger] gs[i]).key is Some && (exists|m: int|
            rows.len() <= m < t.len() && t[m].source_provided_id == gs[i].key) implies exists|m: int|
            rows.len() <= m < t.len() && (#[trigger] t[m]).source_provided_id == gs[i].key
                && t[m].is_latest_version && greatest_version(gs[i].items, t[m]) by {
        let m = choose|m: int| rows.len() <= m < t.len() && t[m].source_provided_id == gs[i].key;
        assert(t[m] == inserted(st.inserts[m - rl], st));
        assert(st.inserts[m - rl].source_provided_id == gs[i].key);
        let m2 = choose|m2: int|
            0 <= m2 < st.inserts.len() && (#[trigger] st.inserts[m2]).source_provided_id == gs[i].key
                && st.inserts[m2].is_latest_version && greatest_version(gs[i].items, st.inserts[m2]);
        let x = st.inserts[m2].id;
        assert(x == ids[m2]);
        if st.demote.contains(x) {
            let j = choose|j: int| 0 <= j < rows.len() && rows[j].id == x;
            assert(ids[m2] != rows[j].id);
        }
        assert(t[rl + m2] == inserted(st.inserts[m2], st));
        assert(greatest_version(gs[i].items, t[rl + m2]));
    }
}

/// Adding news keeps the edit history of a source linear: when the stored records `rows` of
/// `source` form one chain of versions per source-provided identifier (one latest version,
/// nothing after it, no two versions after the same one), and the plan for the fetched groups
/// `gs` is made from lookups `ls` that tell each identifier's latest stored version and from
/// fresh identifiers `ids`, then the records after the plan is carried out still do. And for
/// each identifier of which new versions are stored, the latest version is a new one that comes
/// no earlier (by update time, else publication time) than any fetched version of it.
#[verifier::spinoff_prover]
#[verifier::rlimit(40)]
pub proof fn law_adding_news_keeps_history_linear(
    source: u128,
    rows: Seq<NewsRecordView>,
    gs: Seq<NewsGroupView>,
    ls: Seq<GroupLookupView>,
    ids: Seq<u128>,
    now: i128,
)
    requires
        linear_history(rows),
        forall|j: int| 0 <= j < rows.len() ==> (#[trigger] rows[j]).source == source,
        groups_wf(gs),
        gs.len() == ls.len(),
        forall|i: int| 0 <= i < gs.len() ==> lookup_fits(#[trigger] gs[i], ls[i]),
        lookups_answer(rows, gs, ls),
        fresh_ids(rows, ids),
        total_items(gs) <= ids.len(),
    ensures
        linear_history(table_after(rows, plan_spec(source, gs, ls, ids, now), now)),
        ({
            let t = table_after(rows, plan_spec(source, gs, ls, ids, now), now);
            forall|i: int|
                0 <= i < gs.len() && (#[trigger] gs[i]).key is Some && (exists|m: int|
                    rows.len() <= m < t.len() && t[m].source_provided_id == gs[i].key) ==> exists|m: int|
                    rows.len() <= m < t.len() && (#[trigger] t[m]).source_provided_id == gs[i].key
                        && t[m].is_latest_version && greatest_version(gs[i].items, t[m])
        }),
{
    lemma_plan_table(source, rows, gs, ls, ids, now);
    lemma_plan_greatest(source, rows, gs, ls, ids, now);
    let st = plan_spec(source, gs, ls, ids, now);
    lemma_plan_used(source, gs, ls, ids, now);
    assert(st.inserts.len() <= ids.len());
    assert forall|x: u128| #[trigger] st.demote.contains(x) implies exists|j: int| 0 <= j < rows.len() && rows[j].id == x by {
        let (j, i2) = choose|j: int, i2: int|
            0 <= j < rows.len() && 0 <= i2 < gs.len() && rows[j].id == x && gs[i2].key is Some
                && rows[j].source_provided_id == gs[i2].key;
    }
    lemma_greatest_in_table(rows, gs, ids, st, now);
}

} // verus!
