//! Feedback signals: validating them and shaping their records.

use vstd::prelude::*;

use super::news::new_uuid;
use super::StorageError;
use crate::clock::{div_toward_zero, is_duration, whole_milliseconds, NANOS_PER_MILLI};
use crate::inform::InformantErrorKind;

verus! {

/// Feedback of the user on news items; times and durations in nanoseconds.
#[derive(Debug, Clone, Copy, PartialEq, Eq, Structural)]
pub enum UserFeedbackSignal {
    /// News item got displayed to the user.
    NewsApearanceSignal { news: u128, happened_at: i128, duration: i128 },
    /// User focused or hovered on news cover.
    NewsFocusSignal { news: u128, done_at: i128, duration: i128 },
    /// User opened and read the news; `scroll_depth_percentage` should indicate how much of
    /// the news got displayed to the user.
    NewsReadSignal { news: u128, done_at: i128, duration: i128, scroll_depth_percentage: i8 },
    /// User explicitly voted for news.
    NewsExplicitVoteSignal { news: u128, done_at: i128, is_up_vote: bool },
}

/// A stored user feedback signal; durations in whole milliseconds.
#[derive(Debug, Clone, Copy, PartialEq, Eq, Structural)]
pub enum UserFeedbackRecord {
    Appearance { id: u128, news: u128, happened_at: i128, duration_millis: i32 },
    Focus { id: u128, news: u128, done_at: i128, duration_millis: i32 },
    Read { id: u128, news: u128, done_at: i128, duration_millis: i32, scroll_depth_percentage: i8 },
    Vote { id: u128, news: u128, done_at: i128, is_up_vote: bool },
}

/// Whether a duration's whole milliseconds fit the stored integer column.
pub open spec fn millis_fit(d: i128) -> bool {
    i32::MIN <= div_toward_zero(d as int, NANOS_PER_MILLI as int) <= i32::MAX
}

/// The stored whole milliseconds of a duration.
pub open spec fn millis_of(d: i128) -> i32 {
    div_toward_zero(d as int, NANOS_PER_MILLI as int) as i32
}

/// The whole milliseconds of a duration, as stored, or an error when they do not fit.
pub fn duration_millis(d: i128) -> (r: Result<i32, StorageError>)
    requires
        is_duration(d as int),
    ensures
        match r {
            Ok(m) => millis_fit(d) && m == millis_of(d),
            Err(e) => !millis_fit(d) && e == StorageError::IntegerOutOfRange,
        },
{
    let ms = whole_milliseconds(d);
    if ms < i32::MIN as i128 || ms > i32::MAX as i128 {
        Err(StorageError::IntegerOutOfRange)
    } else {
        Ok(ms as i32)
    }
}

/// Whether the durations of a signal are representable.
pub open spec fn signal_durations_valid(s: UserFeedbackSignal) -> bool {
    match s {
        UserFeedbackSignal::NewsApearanceSignal { duration, .. } => is_duration(duration as int),
        UserFeedbackSignal::NewsFocusSignal { duration, .. } => is_duration(duration as int),
        UserFeedbackSignal::NewsReadSignal { duration, .. } => is_duration(duration as int),
        UserFeedbackSignal::NewsExplicitVoteSignal { .. } => true,
    }
}

/// The record of a user feedback signal under `id`, or why it is refused: a read signal's
/// scroll depth must be a percentage (`0..=100`), and a duration must fit in whole milliseconds.
pub open spec fn user_feedback_record_spec(s: UserFeedbackSignal, id: u128) -> Result<UserFeedbackRecord, StorageError> {
    match s {
        UserFeedbackSignal::NewsApearanceSignal { news, happened_at, duration } => if millis_fit(duration) {
            Ok(UserFeedbackRecord::Appearance { id, news, happened_at, duration_millis: millis_of(duration) })
        } else {
            Err(StorageError::IntegerOutOfRange)
        },
        UserFeedbackSignal::NewsFocusSignal { news, done_at, duration } => if millis_fit(duration) {
            Ok(UserFeedbackRecord::Focus { id, news, done_at, duration_millis: millis_of(duration) })
        } else {
            Err(StorageError::IntegerOutOfRange)
        },
        UserFeedbackSignal::NewsReadSignal { news, done_at, duration, scroll_depth_percentage } => if !(0
            <= scroll_depth_percentage <= 100) {
            Err(StorageError::InvalidPercentageNumber(scroll_depth_percentage))
        } else if millis_fit(duration) {
            Ok(UserFeedbackRecord::Read { id, news, done_at, duration_millis: millis_of(duration), scroll_depth_percentage })
        } else {
            Err(StorageError::IntegerOutOfRange)
        },
        UserFeedbackSignal::NewsExplicitVoteSignal { news, done_at, is_up_vote } => Ok(
            UserFeedbackRecord::Vote { id, news, done_at, is_up_vote },
        ),
    }
}

/// The record of a user feedback signal under `id`.
pub fn user_feedback_record_with_id(signal: &UserFeedbackSignal, id: u128) -> (r: Result<UserFeedbackRecord, StorageError>)
    requires
        signal_durations_valid(*signal),
    ensures
        r == user_feedback_record_spec(*signal, id),
{
    match *signal {
        UserFeedbackSignal::NewsApearanceSignal { news, happened_at, duration } => {
            let ms = duration_millis(duration)?;
            Ok(UserFeedbackRecord::Appearance { id, news, happened_at, duration_millis: ms })
        },
        UserFeedbackSignal::NewsFocusSignal { news, done_at, duration } => {
            let ms = duration_millis(duration)?;
            Ok(UserFeedbackRecord::Focus { id, news, done_at, duration_millis: ms })
        },
        UserFeedbackSignal::NewsReadSignal { news, done_at, duration, scroll_depth_percentage } => {
            if !(0 <= scroll_depth_percentage && scroll_depth_percentage <= 100) {
                return Err(StorageError::InvalidPercentageNumber(scroll_depth_percentage));
            }
            let ms = duration_millis(duration)?;
            Ok(UserFeedbackRecord::Read { id, news, done_at, duration_millis: ms, scroll_depth_percentage })
        },
        UserFeedbackSignal::NewsExplicitVoteSignal { news, done_at, is_up_vote } => {
            Ok(UserFeedbackRecord::Vote { id, news, done_at, is_up_vote })
        },
    }
}

/// The identifier of a record.
pub open spec fn record_id(r: UserFeedbackRecord) -> u128 {
    match r {
        UserFeedbackRecord::Appearance { id, .. } => id,
        UserFeedbackRecord::Focus { id, .. } => id,
        UserFeedbackRecord::Read { id, .. } => id,
        UserFeedbackRecord::Vote { id, .. } => id,
    }
}

/// The record of a user feedback signal under a fresh random identifier.
pub fn user_feedback_record(signal: &UserFeedbackSignal) -> (r: Result<UserFeedbackRecord, StorageError>)
    requires
        signal_durations_valid(*signal),
    ensures
        match r {
            Ok(rec) => user_feedback_record_spec(*signal, record_id(rec)) == Ok::<UserFeedbackRecord, StorageError>(rec),
            Err(e) => forall|id: u128| #[trigger] user_feedback_record_spec(*signal, id) == Err::<UserFeedbackRecord, StorageError>(e),
        },
{
    let id = new_uuid();
    let r = user_feedback_record_with_id(signal, id);
    proof {
        if r is Ok {
            assert(record_id(r->Ok_0) == id);
        }
    }
    r
}

/// A read signal is stored exactly when its scroll depth is a percentage and its duration fits.
pub proof fn law_read_signal_accepted(news: u128, done_at: i128, duration: i128, depth: i8, id: u128)
    ensures
        user_feedback_record_spec(
            UserFeedbackSignal::NewsReadSignal { news, done_at, duration, scroll_depth_percentage: depth },
            id,
        ) is Ok <==> (0 <= depth <= 100 && millis_fit(duration)),
{
}

/// The stored whole milliseconds of a duration are the duration truncated toward zero: when
/// they fit, they are the largest whole number of milliseconds not beyond the duration, on the
/// duration's side of zero.
pub proof fn law_millis_truncate_toward_zero(d: i128)
    requires
        millis_fit(d),
    ensures
        d >= 0 ==> millis_of(d) >= 0 && millis_of(d) * 1_000_000 <= d < millis_of(d) * 1_000_000 + 1_000_000,
        d < 0 ==> millis_of(d) <= 0 && millis_of(d) * 1_000_000 - 1_000_000 < d <= millis_of(d) * 1_000_000,
{
    let q = div_toward_zero(d as int, NANOS_PER_MILLI as int);
    assert(millis_of(d) == q);
    if d >= 0 {
        let a = d as int;
        assert(0 <= a / 1_000_000 && (a / 1_000_000) * 1_000_000 <= a < (a / 1_000_000) * 1_000_000 + 1_000_000)
            by (nonlinear_arith)
            requires
                a >= 0,
        ;
    } else {
        let a = -(d as int);
        assert(0 <= a / 1_000_000 && (a / 1_000_000) * 1_000_000 <= a < (a / 1_000_000) * 1_000_000 + 1_000_000)
            by (nonlinear_arith)
            requires
                a > 0,
        ;
    }
}

/// A signal that is stored keeps its news item, its time, and its duration as the duration's
/// whole milliseconds; a read keeps its scroll depth.
pub proof fn law_feedback_records_keep_fields(news: u128, at: i128, duration: i128, depth: i8, id: u128)
    ensures
        (user_feedback_record_spec(UserFeedbackSignal::NewsApearanceSignal { news, happened_at: at, duration }, id)
            matches Ok(r) ==> r == (UserFeedbackRecord::Appearance {
            id,
            news,
            happened_at: at,
            duration_millis: millis_of(duration),
        })),
        (user_feedback_record_spec(UserFeedbackSignal::NewsFocusSignal { news, done_at: at, duration }, id)
            matches Ok(r) ==> r == (UserFeedbackRecord::Focus {
            id,
            news,
            done_at: at,
            duration_millis: millis_of(duration),
        })),
        (user_feedback_record_spec(
            UserFeedbackSignal::NewsReadSignal { news, done_at: at, duration, scroll_depth_percentage: depth },
            id,
        ) matches Ok(r) ==> r == (UserFeedbackRecord::Read {
            id,
            news,
            done_at: at,
            duration_millis: millis_of(duration),
            scroll_depth_percentage: depth,
        })),
        (user_feedback_record_spec(UserFeedbackSignal::NewsApearanceSignal { news, happened_at: at, duration }, id) is Ok
            <==> millis_fit(duration)),
        (user_feedback_record_spec(UserFeedbackSignal::NewsFocusSignal { news, done_at: at, duration }, id) is Ok
            <==> millis_fit(duration)),
{
}

/// A vote is stored as the vote it is: its record, under the given identifier, holds the
/// signal's news item, time and direction (up or down).
pub proof fn law_vote_record_keeps_the_vote(news: u128, done_at: i128, is_up_vote: bool, id: u128)
    ensures
        user_feedback_record_spec(UserFeedbackSignal::NewsExplicitVoteSignal { news, done_at, is_up_vote }, id)
            matches Ok(UserFeedbackRecord::Vote { id: i, news: n, done_at: d, is_up_vote: v }) && i == id && n == news
            && d == done_at && v == is_up_vote,
{
}

/// Feedback of the fetches of sources; times and durations in nanoseconds.
#[derive(Debug, Clone, Copy, PartialEq, Eq, Structural)]
pub enum SourceFeedbackSignal {
    FetchSignal {
        source: u128,
        done_at: i128,
        duration: i128,
        failure_code: Option<InformantErrorKind>,
        new_items_count: i32,
        latest_publish_at: Option<i128>,
        oldest_publish_at: Option<i128>,
    },
}

/// A stored fetch signal; the duration in whole milliseconds, the failure as its kind's code.
#[derive(Debug, Clone, Copy, PartialEq, Eq, Structural)]
pub struct FetchSignalRecord {
    pub id: u128,
    pub source: u128,
    pub done_at: i128,
    pub duration_millis: i32,
    pub failure_code: Option<i8>,
    pub new_items_count: i32,
    pub latest_publish_at: Option<i128>,
    pub oldest_publish_at: Option<i128>,
}

/// The record of a fetch signal under `id`, or an error when its duration does not fit in whole
/// milliseconds.
pub open spec fn fetch_record_spec(s: SourceFeedbackSignal, id: u128) -> Result<FetchSignalRecord, StorageError> {
    match s {
        SourceFeedbackSignal::FetchSignal {
            source,
            done_at,
            duration,
            failure_code,
            new_items_count,
            latest_publish_at,
            oldest_publish_at,
        } => if millis_fit(duration) {
            Ok(
                FetchSignalRecord {
                    id,
                    source,
                    done_at,
                    duration_millis: millis_of(duration),
                    failure_code: match failure_code {
                        Some(k) => Some(k.code_spec()),
                        None => None,
                    },
                    new_items_count,
                    latest_publish_at,
                    oldest_publish_at,
                },
            )
        } else {
            Err(StorageError::IntegerOutOfRange)
        },
    }
}

/// A fetch signal is stored, exactly when its duration fits in whole milliseconds, with each of
/// its fields in its own column: the source, the time, the count of new items, the failure's
/// kind code, and the latest and the oldest publication times each as given (so the oldest
/// stays no later than the latest when it was).
pub proof fn law_fetch_record_keeps_fields(
    source: u128,
    done_at: i128,
    duration: i128,
    failure_code: Option<InformantErrorKind>,
    new_items_count: i32,
    latest_publish_at: Option<i128>,
    oldest_publish_at: Option<i128>,
    id: u128,
)
    ensures
        ({
            let s = SourceFeedbackSignal::FetchSignal {
                source,
                done_at,
                duration,
                failure_code,
                new_items_count,
                latest_publish_at,
                oldest_publish_at,
            };
            &&& fetch_record_spec(s, id) is Ok <==> millis_fit(duration)
            &&& fetch_record_spec(s, id) matches Ok(r) ==> {
                &&& r.id == id
                &&& r.source == source
                &&& r.done_at == done_at
                &&& r.duration_millis == millis_of(duration)
                &&& r.new_items_count == new_items_count
                &&& r.latest_publish_at == latest_publish_at
                &&& r.oldest_publish_at == oldest_publish_at
                &&& (failure_code is None <==> r.failure_code is None)
                &&& failure_code matches Some(k) ==> r.failure_code == Some(k.code_spec())
                &&& (oldest_publish_at matches Some(o) && latest_publish_at matches Some(l) && o <= l) ==> (
                r.oldest_publish_at matches Some(ro) && r.latest_publish_at matches Some(rl) && ro <= rl)
            }
        }),
{
}

/// The record of a fetch signal under `id`.
pub fn fetch_record_with_id(signal: &SourceFeedbackSignal, id: u128) -> (r: Result<FetchSignalRecord, StorageError>)
    requires
        match *signal {
            SourceFeedbackSignal::FetchSignal { duration, .. } => is_duration(duration as int),
        },
    ensures
        r == fetch_record_spec(*signal, id),
{
    match *signal {
        SourceFeedbackSignal::FetchSignal {
            source,
            done_at,
            duration,
            failure_code,
            new_items_count,
            latest_publish_at,
            oldest_publish_at,
        } => {
            let ms = duration_millis(duration)?;
            let failure_code = match failure_code {
                Some(k) => Some(k.code()),
                None => None,
            };
            Ok(FetchSignalRecord { id, source, done_at, duration_millis: ms, failure_code, new_items_count, latest_publish_at, oldest_publish_at })
        },
    }
}

/// The record of a fetch signal under a fresh random identifier.
pub fn fetch_record(signal: &SourceFeedbackSignal) -> (r: Result<FetchSignalRecord, StorageError>)
    requires
        match *signal {
            SourceFeedbackSignal::FetchSignal { duration, .. } => is_duration(duration as int),
        },
    ensures
        match r {
            Ok(rec) => fetch_record_spec(*signal, rec.id) == Ok::<FetchSignalRecord, StorageError>(rec),
            Err(e) => forall|id: u128| #[trigger] fetch_record_spec(*signal, id) == Err::<FetchSignalRecord, StorageError>(e),
        },
{
    let id = new_uuid();
    fetch_record_with_id(signal, id)
}

/// The sum of durations given in whole milliseconds, in nanoseconds.
pub open spec fn millis_sum(ms: Seq<i32>) -> int
    decreases ms.len(),
{
    if ms.len() == 0 {
        0
    } else {
        millis_sum(ms.drop_last()) + ms.last() * NANOS_PER_MILLI
    }
}

proof fn lemma_millis_sum_bounds(ms: Seq<i32>)
    ensures
        ms.len() * i32::MIN * NANOS_PER_MILLI <= millis_sum(ms) <= ms.len() * i32::MAX * NANOS_PER_MILLI,
    decreases ms.len(),
{
    if ms.len() > 0 {
        lemma_millis_sum_bounds(ms.drop_last());
        assert((ms.len() - 1) * i32::MIN * NANOS_PER_MILLI + i32::MIN * NANOS_PER_MILLI == ms.len() * i32::MIN * NANOS_PER_MILLI) by (nonlinear_arith);
        assert((ms.len() - 1) * i32::MAX * NANOS_PER_MILLI + i32::MAX * NANOS_PER_MILLI == ms.len() * i32::MAX * NANOS_PER_MILLI) by (nonlinear_arith);
    }
}

/// The average of durations given in whole milliseconds (in nanoseconds, rounded toward zero),
/// or zero when there are none.
pub open spec fn average_duration_spec(ms: Seq<i32>) -> int {
    if ms.len() > 0 {
        div_toward_zero(millis_sum(ms), ms.len() as int)
    } else {
        0
    }
}

/// The average duration of fetches, from their durations in whole milliseconds.
pub fn average_fetch_duration(durations_millis: &Vec<i32>) -> (r: i128)
    requires
        durations_millis@.len() <= i32::MAX,
    ensures
        r == average_duration_spec(durations_millis@),
{
    let mut sum: i128 = 0;
    let mut count: i32 = 0;
    let mut i: usize = 0;
    while i < durations_millis.len()
        invariant
            i <= durations_millis@.len() <= i32::MAX,
            count == i,
            sum == millis_sum(durations_millis@.take(i as int)),
        decreases durations_millis@.len() - i,
    {
        proof {
            lemma_millis_sum_bounds(durations_millis@.take(i as int));
            assert(durations_millis@.take(i + 1).drop_last() =~= durations_millis@.take(i as int));
            assert(i * i32::MAX * NANOS_PER_MILLI <= i32::MAX * i32::MAX * NANOS_PER_MILLI) by (nonlinear_arith)
                requires i <= i32::MAX;
            assert(i * i32::MIN * NANOS_PER_MILLI >= i32::MAX * i32::MIN * NANOS_PER_MILLI) by (nonlinear_arith)
                requires 0 <= i <= i32::MAX;
        }
        sum = sum + (durations_millis[i] as i128) * NANOS_PER_MILLI;
        count = count + 1;
        i = i + 1;
    }
    assert(durations_millis@.take(i as int) =~= durations_millis@);
    proof {
        lemma_millis_sum_bounds(durations_millis@);
        let n = durations_millis@.len();
        assert(n * i32::MIN * NANOS_PER_MILLI >= i32::MAX * i32::MIN * NANOS_PER_MILLI) by (nonlinear_arith)
            requires 0 <= n <= i32::MAX;
    }
    if count > 0 {
        let c = count as i128;
        if sum >= 0 {
            sum / c
        } else {
            -((-sum) / c)
        }
    } else {
        0
    }
}

} // verus!
