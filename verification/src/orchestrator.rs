//! The per-tick decision of the polling loop: for one target, consult
//! the schedule evaluator and the fire-tracker and say whether to run
//! a backup now, and for which due instant. The caller runs the
//! decided backup, then records the instant with `mark_fired`.

use vstd::prelude::*;

use crate::models::DatabaseConfig;
use crate::schedule::{cron_valid, due_instant_is, next_firing, no_due_instant, MAX_SCHEDULE_TS};
use crate::tracker::{should_fire_given, FireTracker};

verus! {

/// What one tick does for one target.
#[derive(Clone, Copy, Debug, PartialEq, Eq, Structural)]
pub enum TickDecision {
    /// The target is disabled.
    SkipDisabled,
    /// The target has no schedule configured.
    SkipUnscheduled,
    /// The cron expression does not parse; the target is skipped for
    /// this tick, not failed.
    SkipInvalidSchedule,
    /// No firing instant falls inside the lookback window.
    SkipNotDue,
    /// The due instant was already serviced in this run.
    SkipAlreadyFired,
    /// Run a backup for the given due instant.
    Fire(i64),
}

/// Decides one target for one tick over the window
/// `[window_start, now]`.
pub fn evaluate_target(
    db: &DatabaseConfig,
    tracker: &FireTracker,
    window_start: i64,
    now: i64,
) -> (d: TickDecision)
    requires
        1 <= window_start <= now,
        now <= MAX_SCHEDULE_TS,
    ensures
        d is SkipDisabled <==> !db.enabled,
        d is SkipUnscheduled <==> (db.enabled && db.schedule is None),
        d is SkipInvalidSchedule <==> (db.enabled && (db.schedule matches Some(s)
            && !cron_valid(s@))),
        d is SkipNotDue ==> (db.schedule matches Some(s) && no_due_instant(
            s@,
            window_start as int,
            now as int,
        )),
        d is SkipAlreadyFired ==> (db.schedule matches Some(s) && exists|i: int|
            #[trigger] due_instant_is(s@, window_start as int, now as int, i)
                && !should_fire_given(tracker.last_fired(db.name@), i)),
        d matches TickDecision::Fire(due) ==> {
            &&& db.enabled
            &&& db.schedule matches Some(s) && cron_valid(s@) && due_instant_is(
                s@,
                window_start as int,
                now as int,
                due as int,
            )
            &&& should_fire_given(tracker.last_fired(db.name@), due as int)
            &&& window_start <= due <= now
        },
{
    if !db.enabled {
        return TickDecision::SkipDisabled;
    }
    let expr = match &db.schedule {
        Some(s) => s,
        None => {
            return TickDecision::SkipUnscheduled;
        },
    };
    let due = match next_firing(expr.as_str(), window_start, now) {
        Ok(Some(i)) => i,
        Ok(None) => {
            return TickDecision::SkipNotDue;
        },
        Err(_) => {
            return TickDecision::SkipInvalidSchedule;
        },
    };
    if tracker.should_fire(db.name.as_str(), due) {
        TickDecision::Fire(due)
    } else {
        TickDecision::SkipAlreadyFired
    }
}

} // verus!
