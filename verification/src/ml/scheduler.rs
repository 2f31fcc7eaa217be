//! The calendar of scheduled source fetches.

use std::collections::BTreeMap;

use rand::RngExt;

use vstd::prelude::*;
use vstd::std_specs::btree::increasing_seq;
use vstd::std_specs::cmp::OrdSpec;
use vstd::std_specs::iter::IteratorSpec;

use super::SchedulerError;
use crate::clock::{
    is_duration, is_instant, saturating_sub, saturating_sub_spec, NANOS_PER_MILLI, NANOS_PER_SECOND,
};

verus! {

broadcast use vstd::std_specs::btree::group_btree_axioms;

/// Whether `ks` lists every key of `keys` exactly once, in strictly increasing order.
pub open spec fn ascending_enumeration(ks: Seq<i128>, keys: Set<i128>) -> bool {
    &&& forall|i: int, j: int| 0 <= i < j < ks.len() ==> ks[i] < ks[j]
    &&& forall|i: int| 0 <= i < ks.len() ==> keys.contains(#[trigger] ks[i])
    &&& forall|k: i128| keys.contains(k) ==> ks.contains(k)
}

/// The sources scheduled at the times `ks`, time after time, each time's sources in their
/// order of scheduling.
pub open spec fn flatten(m: Map<i128, Seq<u128>>, ks: Seq<i128>) -> Seq<u128>
    decreases ks.len(),
{
    if ks.len() == 0 {
        Seq::empty()
    } else {
        flatten(m, ks.drop_last()) + m[ks.last()]
    }
}

/// Every time of `m` holds at least one source.
pub open spec fn calendar_wf(m: Map<i128, Seq<u128>>) -> bool {
    forall|k: i128| m.contains_key(k) ==> #[trigger] m[k].len() > 0
}

/// The times of `m` at or before `until`.
pub open spec fn keys_until(m: Map<i128, Seq<u128>>, until: i128) -> Set<i128> {
    m.dom().filter(|k: i128| k <= until)
}

/// `m` without the times at or before `until`.
pub open spec fn remove_until(m: Map<i128, Seq<u128>>, until: i128) -> Map<i128, Seq<u128>> {
    m.restrict(m.dom().filter(|k: i128| k > until))
}

/// Whether `source` is scheduled at some time of `m`.
pub open spec fn is_scheduled(m: Map<i128, Seq<u128>>, source: u128) -> bool {
    exists|t: i128| m.contains_key(t) && #[trigger] m[t].contains(source)
}

/// The earliest time of `m` at which `source` is scheduled.
pub open spec fn first_time_of(m: Map<i128, Seq<u128>>, source: u128) -> i128
    recommends
        is_scheduled(m, source),
{
    choose|t: i128|
        m.contains_key(t) && #[trigger] m[t].contains(source) && forall|u: i128|
            m.contains_key(u) && #[trigger] m[u].contains(source) ==> t <= u
}

/// `m` after adding `source` at the end of the sources scheduled at `time`.
pub open spec fn schedule_spec(m: Map<i128, Seq<u128>>, time: i128, source: u128) -> Map<
    i128,
    Seq<u128>,
> {
    if m.contains_key(time) {
        m.insert(time, m[time].push(source))
    } else {
        m.insert(time, seq![source])
    }
}

/// The index of the first occurrence of `x` in `s`.
pub open spec fn first_position(s: Seq<u128>, x: u128) -> int
    recommends
        s.contains(x),
{
    choose|i: int| 0 <= i < s.len() && s[i] == x && forall|j: int| 0 <= j < i ==> s[j] != x
}

/// `m` after removing the first occurrence of `source` at its earliest scheduled time,
/// dropping that time when nothing remains scheduled at it.
pub open spec fn unschedule_spec(m: Map<i128, Seq<u128>>, source: u128) -> Map<i128, Seq<u128>> {
    let t = first_time_of(m, source);
    let rest = m[t].remove(first_position(m[t], source));
    if rest.len() == 0 {
        m.remove(t)
    } else {
        m.insert(t, rest)
    }
}

/// Keys that a `BTreeMap` walks in increasing order are strictly increasing integers.
proof fn lemma_increasing_keys(ks: Seq<&i128>)
    requires
        increasing_seq(ks),
    ensures
        forall|i: int, j: int| 0 <= i < j < ks.len() ==> *ks[i] < *ks[j],
{
    broadcast use vstd::laws_cmp::group_laws_cmp, vstd::laws_cmp::lemma_ref_obeys_cmp_spec;

    assert(vstd::laws_cmp::obeys_cmp::<&i128>());
    assert forall|i: int, j: int| 0 <= i < j < ks.len() implies *ks[i] < *ks[j] by {
        assert(OrdSpec::cmp_spec(&ks[i], &ks[j]) is Less);
    }
}

/// The index of the first occurrence of `x` in `v`, or `None` when `x` does not occur.
fn position_of(v: &Vec<u128>, x: u128) -> (r: Option<usize>)
    ensures
        match r {
            Some(j) => j < v@.len() && v@[j as int] == x && forall|a: int| 0 <= a < j ==> v@[a] != x,
            None => !v@.contains(x),
        },
{
    let mut j: usize = 0;
    while j < v.len()
        invariant
            j <= v@.len(),
            forall|a: int| 0 <= a < j ==> v@[a] != x,
        decreases v@.len() - j,
    {
        if v[j] == x {
            return Some(j);
        }
        j = j + 1;
    }
    None
}

/// The bounds that fetch intervals are held to (in nanoseconds).
#[derive(Debug, Clone, Copy, PartialEq, Eq, Structural)]
pub struct IntervalLimits {
    /// Intervals will never be reduced below this (rate limit).
    pub min_fetch_interval: i128,
    /// Intervals will never be increased beyond this: every source is fetched at least once
    /// during this window.
    pub max_fetch_interval: i128,
}

impl Default for IntervalLimits {
    /// Fetches at most every five minutes, and at least every twelve hours.
    fn default() -> (r: IntervalLimits)
        ensures
            r.min_fetch_interval == 5 * 60 * NANOS_PER_SECOND,
            r.max_fetch_interval == 12 * 60 * 60 * NANOS_PER_SECOND,
    {
        IntervalLimits { min_fetch_interval: 300_000_000_000, max_fetch_interval: 43_200_000_000_000 }
    }
}

/// The first component of [`enforce_interval_limits`].
pub open spec fn limited_min_spec(limits: IntervalLimits, min_interval: int) -> int {
    let m1 = if min_interval < limits.min_fetch_interval { limits.min_fetch_interval as int } else { min_interval };
    if m1 > limits.max_fetch_interval { limits.max_fetch_interval as int } else { m1 }
}

/// The second component of [`enforce_interval_limits`].
pub open spec fn limited_max_spec(limits: IntervalLimits, max_interval: int) -> int {
    let m1 = if max_interval > limits.max_fetch_interval { limits.max_fetch_interval as int } else { max_interval };
    if m1 < limits.min_fetch_interval { limits.min_fetch_interval as int } else { m1 }
}

/// Holds calculated interval bounds to the configured limits: the minimum is raised to the
/// configured minimum, the maximum lowered to the configured maximum, then a minimum beyond
/// the configured maximum is lowered to it and a maximum below the configured minimum is
/// raised to it.
pub fn enforce_interval_limits(limits: IntervalLimits, min_interval: i128, max_interval: i128) -> (r: (i128, i128))
    ensures
        r.0 == limited_min_spec(limits, min_interval as int),
        r.1 == limited_max_spec(limits, max_interval as int),
{
    let mut min_interval = min_interval;
    let mut max_interval = max_interval;
    if min_interval < limits.min_fetch_interval {
        min_interval = limits.min_fetch_interval;
    }
    if max_interval > limits.max_fetch_interval {
        max_interval = limits.max_fetch_interval;
    }
    if min_interval > limits.max_fetch_interval {
        min_interval = limits.max_fetch_interval;
    }
    if max_interval < limits.min_fetch_interval {
        max_interval = limits.min_fetch_interval;
    }
    (min_interval, max_interval)
}

/// Length in whole milliseconds of the window between two interval bounds that a fetch time is
/// drawn from: `max_interval - min_interval` (saturated), or `0` when that is not positive.
pub open spec fn fetch_window_spec(min_interval: int, max_interval: int) -> int {
    let d = saturating_sub_spec(max_interval, min_interval);
    if d > 0 {
        d / (NANOS_PER_MILLI as int)
    } else {
        0
    }
}

/// The window, in whole milliseconds, that a fetch time is drawn from.
pub fn fetch_window_millis(min_interval: i128, max_interval: i128) -> (w: i128)
    requires
        is_duration(min_interval as int),
        is_duration(max_interval as int),
    ensures
        w == fetch_window_spec(min_interval as int, max_interval as int),
        w >= 0,
{
    let d = saturating_sub(max_interval, min_interval);
    if d > 0 {
        d / NANOS_PER_MILLI
    } else {
        0
    }
}

/// The time of a fetch scheduled `offset_millis` milliseconds after `now + min_interval`.
pub open spec fn scheduled_time_spec(now: int, min_interval: int, offset_millis: int) -> int {
    now + min_interval + offset_millis * NANOS_PER_MILLI
}

/// Whether a fetch scheduled at any offset of the window of `(min_interval, max_interval)`
/// after `now + min_interval` falls on a representable instant.
pub open spec fn schedulable(now: int, min_interval: int, max_interval: int) -> bool {
    &&& is_duration(min_interval)
    &&& is_duration(max_interval)
    &&& is_instant(now)
    &&& is_instant(now + min_interval)
    &&& is_instant(scheduled_time_spec(now, min_interval, fetch_window_spec(min_interval, max_interval)))
}

/// The larger of two integers.
pub open spec fn max_int(a: int, b: int) -> int {
    if a >= b {
        a
    } else {
        b
    }
}

/// An offset of the window of `(min_interval, max_interval)` keeps the fetch between
/// `now + min_interval` and `now + max(min_interval, max_interval)`.
proof fn lemma_offset_in_interval(now: int, min_interval: int, max_interval: int, offset: int)
    requires
        0 <= offset <= fetch_window_spec(min_interval, max_interval),
        is_duration(min_interval),
        is_duration(max_interval),
    ensures
        now + min_interval <= scheduled_time_spec(now, min_interval, offset) <= now + max_int(
            min_interval,
            max_interval,
        ),
{
    let d = saturating_sub_spec(max_interval, min_interval);
    let w = fetch_window_spec(min_interval, max_interval);
    assert(offset * NANOS_PER_MILLI <= w * NANOS_PER_MILLI) by (nonlinear_arith)
        requires
            0 <= offset <= w,
            NANOS_PER_MILLI == 1_000_000,
    ;
    assert(0 <= offset * NANOS_PER_MILLI) by (nonlinear_arith)
        requires
            0 <= offset,
            NANOS_PER_MILLI == 1_000_000,
    ;
    if d > 0 {
        assert(w * NANOS_PER_MILLI <= d) by (nonlinear_arith)
            requires
                w == d / 1_000_000,
                d > 0,
                NANOS_PER_MILLI == 1_000_000,
        ;
        assert(d <= max_interval - min_interval);
    } else {
        assert(w == 0);
    }
}

/// A uniformly random offset in `0..=max_millis`.
///
/// Calls `rand::RngExt::random_range` on the thread-local generator `rand::rng()`, which
/// returns a value of the inclusive range it is given; nothing more is stated of the value.
#[verifier::external_body]
fn random_offset_millis(max_millis: i128) -> (r: i128)
    requires
        max_millis >= 0,
    ensures
        0 <= r <= max_millis,
{
    rand::rng().random_range(0..=max_millis)
}

/// Scheduling a source that is not scheduled yet and then unscheduling it gives back the
/// calendar as it was.
pub proof fn law_unschedule_undoes_schedule(m: Map<i128, Seq<u128>>, time: i128, source: u128)
    requires
        calendar_wf(m),
        !is_scheduled(m, source),
    ensures
        is_scheduled(schedule_spec(m, time, source), source),
        unschedule_spec(schedule_spec(m, time, source), source) == m,
{
    let m2 = schedule_spec(m, time, source);
    let v = m2[time];
    assert(v.last() == source);
    assert(v.contains(source));
    assert forall|u: i128| m2.contains_key(u) && #[trigger] m2[u].contains(source) implies u == time by {
        if u != time {
            assert(m.contains_key(u) && m[u] == m2[u]);
        }
    }
    let f = first_time_of(m2, source);
    assert(m2.contains_key(time) && m2[time].contains(source) && forall|u: i128|
        m2.contains_key(u) && #[trigger] m2[u].contains(source) ==> time <= u);
    assert(f == time);
    let p = first_position(v, source);
    let prefix = if m.contains_key(time) { m[time] } else { Seq::empty() };
    assert(v == prefix.push(source));
    assert forall|a: int| 0 <= a < v.len() - 1 implies v[a] != source by {
        assert(v[a] == prefix[a]);
        if m.contains_key(time) {
            assert(m[time].contains(prefix[a]));
        }
    }
    assert(0 <= p < v.len() && v[p] == source && forall|a: int| 0 <= a < p ==> v[a] != source);
    assert(p == v.len() - 1);
    assert(v.remove(p) =~= prefix);
    if m.contains_key(time) {
        assert(m2.insert(time, prefix) =~= m);
    } else {
        assert(m2.remove(time) =~= m);
    }
}

/// `flatten` holds exactly the sources scheduled at the listed times.
pub proof fn lemma_flatten_contains(m: Map<i128, Seq<u128>>, ks: Seq<i128>, s: u128)
    ensures
        flatten(m, ks).contains(s) <==> exists|i: int| 0 <= i < ks.len() && #[trigger] m[ks[i]].contains(s),
    decreases ks.len(),
{
    if ks.len() > 0 {
        let init = ks.drop_last();
        lemma_flatten_contains(m, init, s);
        let f = flatten(m, init);
        let last = m[ks.last()];
        if (f + last).contains(s) {
            let j = choose|j: int| 0 <= j < (f + last).len() && (f + last)[j] == s;
            if j < f.len() {
                assert(f[j] == s);
                let i = choose|i: int| 0 <= i < init.len() && #[trigger] m[init[i]].contains(s);
                assert(ks[i] == init[i]);
            } else {
                assert(last[j - f.len()] == s);
                assert(m[ks[ks.len() - 1]].contains(s));
            }
        }
        if exists|i: int| 0 <= i < ks.len() && #[trigger] m[ks[i]].contains(s) {
            let i = choose|i: int| 0 <= i < ks.len() && #[trigger] m[ks[i]].contains(s);
            if i < ks.len() - 1 {
                assert(init[i] == ks[i]);
                assert(f.contains(s));
                let j = choose|j: int| 0 <= j < f.len() && f[j] == s;
                assert((f + last)[j] == s);
            } else {
                let j = choose|j: int| 0 <= j < last.len() && last[j] == s;
                assert((f + last)[f.len() + j] == s);
            }
        }
    }
}

/// The sources popped at `until` are exactly those scheduled at some time at or before
/// `until`, and every time that stays in the calendar comes after `until`.
pub proof fn law_pop_due_exact(m: Map<i128, Seq<u128>>, until: i128, ks: Seq<i128>, s: u128)
    requires
        ascending_enumeration(ks, keys_until(m, until)),
    ensures
        flatten(m, ks).contains(s) <==> exists|t: i128|
            m.contains_key(t) && t <= until && #[trigger] m[t].contains(s),
        forall|t: i128| #[trigger] remove_until(m, until).contains_key(t) ==> t > until,
{
    lemma_flatten_contains(m, ks, s);
    if flatten(m, ks).contains(s) {
        let i = choose|i: int| 0 <= i < ks.len() && #[trigger] m[ks[i]].contains(s);
        assert(keys_until(m, until).contains(ks[i]));
        assert(m.contains_key(ks[i]) && ks[i] <= until && m[ks[i]].contains(s));
    }
    if exists|t: i128| m.contains_key(t) && t <= until && #[trigger] m[t].contains(s) {
        let t = choose|t: i128| m.contains_key(t) && t <= until && #[trigger] m[t].contains(s);
        assert(keys_until(m, until).contains(t));
        assert(ks.contains(t));
        let i = choose|i: int| 0 <= i < ks.len() && ks[i] == t;
        assert(m[ks[i]].contains(s));
    }
}

/// Popping at the calendar's earliest time always hands out at least one source.
pub proof fn law_pop_at_next_time_is_not_empty(m: Map<i128, Seq<u128>>, next: i128, ks: Seq<i128>)
    requires
        calendar_wf(m),
        m.contains_key(next),
        ascending_enumeration(ks, keys_until(m, next)),
    ensures
        flatten(m, ks).len() > 0,
{
    let s = m[next][0];
    assert(m[next].contains(s));
    law_pop_due_exact(m, next, ks, s);
    assert(flatten(m, ks).contains(s));
}

/// Map of scheduled times to the sources whose fetch is due then (several sources may share a
/// time).
pub struct Calender {
    calendar: BTreeMap<i128, Vec<u128>>,
    limits: IntervalLimits,
}

impl View for Calender {
    type V = Map<i128, Seq<u128>>;

    closed spec fn view(&self) -> Map<i128, Seq<u128>> {
        Map::new(|k: i128| self.calendar@.contains_key(k), |k: i128| self.calendar@[k]@)
    }
}

impl Calender {
    /// Every scheduled time holds at least one source.
    pub closed spec fn wf(&self) -> bool {
        forall|k: i128| self.calendar@.contains_key(k) ==> #[trigger] self.calendar@[k]@.len() > 0
    }

    /// The view of a well-formed calendar is well-formed.
    pub proof fn lemma_wf_view(&self)
        requires
            self.wf(),
        ensures
            calendar_wf(self@),
    {
        self.lemma_view_dom();
    }

    /// The limits the calendar schedules fetches within.
    pub closed spec fn limits(&self) -> IntervalLimits {
        self.limits
    }

    /// An empty calendar.
    pub fn new(limits: IntervalLimits) -> (r: Self)
        ensures
            r.wf(),
            r@ == Map::<i128, Seq<u128>>::empty(),
            r.limits() == limits,
    {
        let r = Calender { calendar: BTreeMap::new(), limits };
        assert(r@ =~= Map::<i128, Seq<u128>>::empty());
        r
    }

    /// Whether nothing is scheduled.
    pub fn is_empty(&self) -> (r: bool)
        ensures
            r == self@.dom().is_empty(),
    {
        proof { self.lemma_view_dom(); }
        let r = self.calendar.is_empty();
        proof {
            if !r {
                assert(!self.calendar@.is_empty());
                let k = choose|k: i128| self.calendar@.dom().contains(k);
                assert(self@.dom().contains(k));
            } else {
                assert(self.calendar@.dom() =~= Set::empty());
            }
        }
        r
    }

    /// The earliest scheduled time, or `None` when the calendar is empty.
    pub fn next_time(&self) -> (r: Option<i128>)
        ensures
            match r {
                None => self@.dom().is_empty(),
                Some(t) => self@.contains_key(t) && forall|k: i128| #[trigger] self@.contains_key(k) ==> t <= k,
            },
    {
        proof { self.lemma_view_dom(); }
        let ghost dom = self.calendar@.dom();
        for k in it: self.calendar.keys()
            invariant
                it.index() == 0,
                it.seq().unref().to_set() == dom,
                increasing_seq(it.seq()),
                dom == self@.dom(),
                it.index() == it.seq().len() ==> dom.is_empty(),
        {
            let ghost all = it.seq();
            proof {
                lemma_increasing_keys(all);
                assert(all[0] == k);
                assert(all.unref().contains(*k));
                assert forall|q: i128| #[trigger] self@.contains_key(q) implies *k <= q by {
                    assert(all.unref().to_set().contains(q));
                    let i = choose|i: int| 0 <= i < all.len() && all.unref()[i] == q;
                }
            }
            return Some(*k);
        }
        None
    }

    /// Schedules a fetch of `source` at a random time between `now + min_interval` and
    /// `now + max_interval` (in whole milliseconds after `now + min_interval`; at
    /// `now + min_interval` when `max_interval` is not above `min_interval`).
    pub fn schedule_source(&mut self, source: u128, now: i128, min_interval: i128, max_interval: i128)
        requires
            old(self).wf(),
            schedulable(now as int, min_interval as int, max_interval as int),
        ensures
            final(self).wf(),
            final(self).limits() == old(self).limits(),
            exists|offset: int|
                0 <= offset <= fetch_window_spec(min_interval as int, max_interval as int)
                    && final(self)@ == schedule_spec(
                    old(self)@,
                    scheduled_time_spec(now as int, min_interval as int, offset) as i128,
                    source,
                ),
            exists|time: i128|
                now + min_interval <= time <= now + max_int(min_interval as int, max_interval as int)
                    && final(self)@ == schedule_spec(old(self)@, time, source),
    {
        let window = fetch_window_millis(min_interval, max_interval);
        let offset = if window > 0 {
            random_offset_millis(window)
        } else {
            0
        };
        proof {
            lemma_offset_in_interval(now as int, min_interval as int, max_interval as int, offset as int);
        }
        self.schedule_with_offset(source, now, min_interval, offset);
    }

    /// Schedules a fetch of `source` `offset_millis` milliseconds after `now + min_interval`.
    pub fn schedule_with_offset(&mut self, source: u128, now: i128, min_interval: i128, offset_millis: i128)
        requires
            old(self).wf(),
            offset_millis >= 0,
            is_instant(now as int),
            is_instant(now + min_interval),
            is_instant(scheduled_time_spec(now as int, min_interval as int, offset_millis as int)),
        ensures
            final(self).wf(),
            final(self).limits() == old(self).limits(),
            final(self)@ == schedule_spec(
                old(self)@,
                scheduled_time_spec(now as int, min_interval as int, offset_millis as int) as i128,
                source,
            ),
    {
        let time = now + min_interval + offset_millis * NANOS_PER_MILLI;
        self.schedule_at(source, time);
    }

    /// Adds `source` at the end of the sources scheduled at `time`.
    pub fn schedule_at(&mut self, source: u128, time: i128)
        requires
            old(self).wf(),
        ensures
            final(self).wf(),
            final(self).limits() == old(self).limits(),
            final(self)@ == schedule_spec(old(self)@, time, source),
    {
        proof { self.lemma_view_dom(); }
        let mut sources = match self.calendar.remove(&time) {
            Some(v) => v,
            None => Vec::new(),
        };
        sources.push(source);
        self.calendar.insert(time, sources);
        proof { self.lemma_view_dom(); }
        assert(self@ =~= schedule_spec(old(self)@, time, source));
    }

    /// Removes all sources scheduled at or before `until_time` and returns them, time after
    /// time in increasing order.
    pub fn pop_due(&mut self, until_time: i128) -> (due: Vec<u128>)
        requires
            old(self).wf(),
        ensures
            final(self).wf(),
            final(self).limits() == old(self).limits(),
            final(self)@ == remove_until(old(self)@, until_time),
            exists|ks: Seq<i128>|
                ascending_enumeration(ks, keys_until(old(self)@, until_time)) && due@ == flatten(
                    old(self)@,
                    ks,
                ),
    {
        proof { self.lemma_view_dom(); }
        let all = self.sorted_times();
        let ghost dom = self.calendar@.dom();
        let mut keys_to_remove: Vec<i128> = Vec::new();
        let mut i: usize = 0;
        while i < all.len()
            invariant
                ascending_enumeration(all@, dom),
                dom == self@.dom(),
                i <= all@.len(),
                forall|a: int, b: int| 0 <= a < b < keys_to_remove@.len() ==> keys_to_remove@[a] < keys_to_remove@[b],
                forall|a: int| 0 <= a < keys_to_remove@.len() ==> dom.contains(#[trigger] keys_to_remove@[a]) && keys_to_remove@[a] <= until_time,
                forall|a: int| 0 <= a < i && #[trigger] all@[a] <= until_time ==> keys_to_remove@.contains(all@[a]),
                forall|a: int| 0 <= a < keys_to_remove@.len() ==> exists|b: int| 0 <= b < i && #[trigger] keys_to_remove@[a] == all@[b],
            decreases all@.len() - i,
        {
            let k = all[i];
            if k <= until_time {
                let ghost before = keys_to_remove@;
                keys_to_remove.push(k);
                assert(keys_to_remove@[before.len() as int] == all@[i as int]);
                assert forall|a: int| 0 <= a < i + 1 && #[trigger] all@[a] <= until_time implies keys_to_remove@.contains(all@[a]) by {
                    if a < i {
                        let c = choose|c: int| 0 <= c < before.len() && before[c] == all@[a];
                        assert(keys_to_remove@[c] == all@[a]);
                    } else {
                        assert(keys_to_remove@[before.len() as int] == all@[a]);
                    }
                }
            }
            i = i + 1;
        }
        let ghost ks = keys_to_remove@;
        let ghost old_map = self.calendar@;
        let ghost old_view = self@;
        assert(ascending_enumeration(ks, keys_until(old_view, until_time))) by {
            assert forall|q: i128| keys_until(old_view, until_time).contains(q) implies ks.contains(q) by {
                assert(dom.contains(q));
                assert(all@.contains(q));
                let a = choose|a: int| 0 <= a < all@.len() && all@[a] == q;
            }
        }
        let mut due: Vec<u128> = Vec::new();
        let n = keys_to_remove.len();
        for i in 0..n
            invariant
                n == ks.len(),
                keys_to_remove@ == ks,
                self.limits == old(self).limits,
                old_view == Map::new(|k: i128| old_map.contains_key(k), |k: i128| old_map[k]@),
                forall|a: int, b: int| 0 <= a < b < ks.len() ==> ks[a] < ks[b],
                forall|a: int| 0 <= a < ks.len() ==> old_map.contains_key(#[trigger] ks[a]),
                forall|k: i128| #[trigger] self.calendar@.contains_key(k) <==> (old_map.contains_key(k) && !ks.take(i as int).contains(k)),
                forall|k: i128| #[trigger] self.calendar@.contains_key(k) ==> self.calendar@[k] == old_map[k],
                due@ == flatten(old_view, ks.take(i as int)),
        {
            let key = keys_to_remove[i];
            assert(!ks.take(i as int).contains(key)) by {
                if ks.take(i as int).contains(key) {
                    let a = choose|a: int| 0 <= a < i && ks.take(i as int)[a] == key;
                    assert(ks[a] < ks[i as int]);
                }
            }
            let removed = self.calendar.remove(&key);
            match removed {
                Some(mut tasks) => {
                    due.append(&mut tasks);
                },
                None => {},
            }
            proof {
                let next = ks.take(i + 1);
                let prev = ks.take(i as int);
                assert(next.drop_last() =~= prev);
                assert(next.last() == key);
                assert forall|k: i128| #[trigger] next.contains(k) <==> (prev.contains(k) || k == key) by {
                    if next.contains(k) && k != key {
                        let a = choose|a: int| 0 <= a < next.len() && next[a] == k;
                        assert(prev[a] == k);
                    }
                    if prev.contains(k) {
                        let a = choose|a: int| 0 <= a < prev.len() && prev[a] == k;
                        assert(next[a] == k);
                    }
                    if k == key {
                        assert(next[i as int] == k);
                    }
                }
            }
        }
        proof {
            assert(ks.take(n as int) =~= ks);
            self.lemma_view_dom();
            assert forall|k: i128| #[trigger] ks.contains(k) <==> keys_until(old_view, until_time).contains(k) by {
                if ks.contains(k) {
                    let a = choose|a: int| 0 <= a < ks.len() && ks[a] == k;
                }
            }
            assert(self@ =~= remove_until(old_view, until_time));
        }
        due
    }

    /// Removes the fetch of `source` scheduled at the earliest time; the time itself goes when
    /// no other source is scheduled at it.
    #[verifier::rlimit(40)]
    pub fn unschedule_fetch(&mut self, source: u128) -> (r: Result<(), SchedulerError>)
        requires
            old(self).wf(),
        ensures
            final(self).wf(),
            final(self).limits() == old(self).limits(),
            match r {
                Ok(()) => is_scheduled(old(self)@, source) && final(self)@ == unschedule_spec(
                    old(self)@,
                    source,
                ),
                Err(e) => !is_scheduled(old(self)@, source) && e == SchedulerError::SourceNotScheduled(
                    source,
                ) && final(self)@ == old(self)@,
            },
    {
        proof { self.lemma_view_dom(); }
        let times = self.sorted_times();
        let ghost m = self@;
        let mut i: usize = 0;
        let mut found: Option<(i128, usize)> = None;
        while i < times.len() && found.is_none()
            invariant
                ascending_enumeration(times@, m.dom()),
                m == self@,
                forall|k: i128| self.calendar@.contains_key(k) ==> #[trigger] self@[k] == self.calendar@[k]@,
                i <= times@.len(),
                forall|a: int| 0 <= a < i ==> !m[#[trigger] times@[a]].contains(source),
                match found {
                    Some((t, j)) => {
                        &&& i < times@.len()
                        &&& t == times@[i as int]
                        &&& j < m[t].len()
                        &&& m[t][j as int] == source
                        &&& forall|a: int| 0 <= a < j ==> m[t][a] != source
                    },
                    None => true,
                },
            decreases times@.len() - i, (if found is None { 1int } else { 0int }),
        {
            let t = times[i];
            let pos = match self.calendar.get(&t) {
                Some(v) => position_of(v, source),
                None => None,
            };
            match pos {
                Some(j) => {
                    found = Some((t, j));
                },
                None => {
                    i = i + 1;
                },
            }
        }
        match found {
            None => {
                assert(!is_scheduled(m, source)) by {
                    if is_scheduled(m, source) {
                        let u = choose|u: i128| m.contains_key(u) && #[trigger] m[u].contains(source);
                        assert(times@.contains(u));
                        let a = choose|a: int| 0 <= a < times@.len() && times@[a] == u;
                        assert(!m[times@[a]].contains(source));
                    }
                }
                Err(SchedulerError::SourceNotScheduled(source))
            },
            Some((t, j)) => {
                proof {
                    assert(m[t].contains(source));
                    assert forall|u: i128| m.contains_key(u) && #[trigger] m[u].contains(source) implies t <= u by {
                        assert(times@.contains(u));
                        let b = choose|b: int| 0 <= b < times@.len() && times@[b] == u;
                        if b < i {
                            assert(!m[times@[b]].contains(source));
                        }
                    }
                    let f = first_time_of(m, source);
                    assert(m.contains_key(f) && m[f].contains(source) && forall|u: i128|
                        m.contains_key(u) && #[trigger] m[u].contains(source) ==> f <= u);
                    assert(f == t);
                    let p = first_position(m[t], source);
                    assert(m[t][j as int] == source);
                    assert(0 <= p < m[t].len() && m[t][p] == source && forall|a: int| 0 <= a < p ==> m[t][a] != source);
                    assert(p == j);
                }
                let removed = self.calendar.remove(&t);
                match removed {
                    Some(mut v) => {
                        v.remove(j);
                        if v.len() > 0 {
                            self.calendar.insert(t, v);
                        }
                    },
                    None => {},
                }
                proof {
                    self.lemma_view_dom();
                    assert(self@ =~= unschedule_spec(m, source));
                }
                Ok(())
            },
        }
    }

    /// The scheduled times in increasing order.
    fn sorted_times(&self) -> (r: Vec<i128>)
        ensures
            ascending_enumeration(r@, self@.dom()),
    {
        proof { self.lemma_view_dom(); }
        let ghost dom = self.calendar@.dom();
        let mut v: Vec<i128> = Vec::new();
        for k in it: self.calendar.keys()
            invariant
                it.seq().unref().to_set() == dom,
                increasing_seq(it.seq()),
                v@.len() == it.index(),
                forall|a: int| 0 <= a < it.index() ==> v@[a] == *it.seq()[a],
                it.index() == it.seq().len() ==> ascending_enumeration(v@, dom),
        {
            v.push(*k);
            let ghost all = it.seq();
            let ghost last = it.index() + 1 == all.len();
            proof {
                lemma_increasing_keys(all);
            }
            assert forall|a: int| last && 0 <= a < v@.len() implies dom.contains(#[trigger] v@[a]) by {
                assert(all.unref()[a] == v@[a]);
                assert(all.unref().contains(v@[a]));
            }
            assert forall|q: i128| last && dom.contains(q) implies v@.contains(q) by {
                assert(all.unref().to_set().contains(q));
                let a = choose|a: int| 0 <= a < all.len() && all.unref()[a] == q;
                assert(v@[a] == q);
            }
        }
        v
    }

    proof fn lemma_view_dom(&self)
        ensures
            self@.dom() == self.calendar@.dom(),
            forall|k: i128| self.calendar@.contains_key(k) ==> #[trigger] self@[k] == self.calendar@[k]@,
    {
        assert(self@.dom() =~= self.calendar@.dom());
    }
}

} // verus!
