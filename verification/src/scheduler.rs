//! Decisions of the fetch scheduler's event loop.

use vstd::prelude::*;

use crate::clock::{is_instant, NANOS_PER_MILLI};
use crate::db::news::AddingNewsOutput;
use crate::db::signals::SourceFeedbackSignal;
use crate::db::StorageError;
use crate::inform::InformantErrorKind;

verus! {

/// Real-time events of the scheduler.
#[derive(Debug, Clone)]
pub enum Event {
    /// Indicates that a source has been fetched.
    NewsUpdated { source_id: u128, updates: AddingNewsOutput },
    /// Error occurred while executing an informant.
    InformantError { source_id: u128, error: String },
}

/// What the scheduler's timer does next.
#[derive(Debug, Clone, Copy, PartialEq, Eq, Structural)]
pub enum Wait {
    /// Nothing is scheduled: wait until a source gets enabled.
    Idle,
    /// Sleep this many whole milliseconds, then pop the due fetches.
    SleepThenPop(u64),
}

/// The timer's next move when the earliest scheduled fetch is at `next_time` and the time is
/// `now`: sleep until the fetch is due (in whole milliseconds, not at all when it is due
/// already), or wait for a source when nothing is scheduled.
pub fn plan_wait(next_time: Option<i128>, now: i128) -> (r: Wait)
    requires
        next_time matches Some(t) ==> is_instant(t as int),
        is_instant(now as int),
    ensures
        match next_time {
            None => r == Wait::Idle,
            Some(t) => r == Wait::SleepThenPop(
                if t > now {
                    ((t - now) / (NANOS_PER_MILLI as int)) as u64
                } else {
                    0u64
                },
            ),
        },
{
    match next_time {
        None => Wait::Idle,
        Some(t) => {
            if t > now {
                let ms = (t - now) / NANOS_PER_MILLI;
                assert(ms <= u64::MAX);
                Wait::SleepThenPop(ms as u64)
            } else {
                Wait::SleepThenPop(0)
            }
        },
    }
}

/// The fetch signal of an informant execution that started at `started_at` and took
/// `duration`: on success, the number of new items and their publication bounds; on failure,
/// the error's kind and nothing new. The number of new items must fit the stored integer.
pub fn fetch_signal_of(
    source: u128,
    started_at: i128,
    duration: i128,
    outcome: &Result<AddingNewsOutput, InformantErrorKind>,
) -> (r: Result<SourceFeedbackSignal, StorageError>)
    ensures
        match outcome {
            Ok(out) => if out.new@.len() <= i32::MAX {
                r == Ok::<SourceFeedbackSignal, StorageError>(
                    SourceFeedbackSignal::FetchSignal {
                        source,
                        done_at: started_at,
                        duration,
                        failure_code: None,
                        new_items_count: out.new@.len() as i32,
                        latest_publish_at: out.latest_publish,
                        oldest_publish_at: out.oldest_publish,
                    },
                )
            } else {
                r == Err::<SourceFeedbackSignal, StorageError>(StorageError::IntegerOutOfRange)
            },
            Err(kind) => r == Ok::<SourceFeedbackSignal, StorageError>(
                SourceFeedbackSignal::FetchSignal {
                    source,
                    done_at: started_at,
                    duration,
                    failure_code: Some(*kind),
                    new_items_count: 0,
                    latest_publish_at: None,
                    oldest_publish_at: None,
                },
            ),
        },
{
    match outcome {
        Ok(out) => {
            let n = out.new.len();
            if n > 2147483647 {
                Err(StorageError::IntegerOutOfRange)
            } else {
                Ok(SourceFeedbackSignal::FetchSignal {
                    source,
                    done_at: started_at,
                    duration,
                    failure_code: None,
                    new_items_count: n as i32,
                    latest_publish_at: out.latest_publish,
                    oldest_publish_at: out.oldest_publish,
                })
            }
        },
        Err(kind) => Ok(SourceFeedbackSignal::FetchSignal {
            source,
            done_at: started_at,
            duration,
            failure_code: Some(*kind),
            new_items_count: 0,
            latest_publish_at: None,
            oldest_publish_at: None,
        }),
    }
}

} // verus!
