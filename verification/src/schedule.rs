//! Schedule evaluation: given a cron expression and a time window,
//! find the due instant — the latest firing of the expression inside
//! the window `[window_start, now]`. Instants are Unix timestamps in
//! whole seconds, and expressions are evaluated in UTC: a daily,
//! weekly or monthly hour means that hour UTC, wherever the process
//! runs. The cron arithmetic itself is done by the `cron` crate
//! behind two trusted wrappers; everything around them is verified
//! against the names `cron_valid` and `cron_next`.

use vstd::prelude::*;

use crate::text::dec_rep;

verus! {

/// Highest instant the evaluator accepts: safely inside the range the
/// `cron` crate enumerates (it stops at year 2100).
pub const MAX_SCHEDULE_TS: i64 = 4_100_000_000;

/// Whether the `cron` crate accepts an expression.
pub uninterp spec fn cron_valid(expr: Seq<char>) -> bool;

/// The earliest firing instant of a valid expression strictly after
/// `after`, or `None` when the expression fires no more (the crate
/// enumerates no instants past year 2100).
pub uninterp spec fn cron_next(expr: Seq<char>, after: int) -> Option<int>;

/// Relies on cron::Schedule::from_str: whether an expression parses
/// depends on its text alone.
#[verifier::external_body]
fn schedule_is_valid(expr: &str) -> (r: bool)
    ensures
        r == cron_valid(expr@),
{
    <cron::Schedule as core::str::FromStr>::from_str(expr).is_ok()
}

/// Relies on cron::Schedule::after, which enumerates the schedule's
/// instants strictly after the given time, earliest first, in whole
/// seconds (it starts its search at the following second), and on
/// cron::Schedule::from_str for the parse.
#[verifier::external_body]
fn schedule_next_after(expr: &str, after_ts: i64) -> (r: Option<i64>)
    requires
        0 <= after_ts <= MAX_SCHEDULE_TS,
    ensures
        cron_valid(expr@) ==> (match r {
            Some(i) => cron_next(expr@, after_ts as int) == Some(i as int),
            None => cron_next(expr@, after_ts as int) is None,
        }),
        !cron_valid(expr@) ==> r is None,
        r matches Some(i) ==> after_ts < i,
{
    let schedule = match <cron::Schedule as core::str::FromStr>::from_str(expr) {
        Ok(s) => s,
        Err(_) => {
            return None;
        },
    };
    let start = chrono::DateTime::from_timestamp(after_ts, 0)?;
    schedule.after(&start).next().map(|d| d.timestamp())
}

/// `i` is a firing instant of `expr` reachable from `from`: the chain
/// of consecutive firings that `cron_next` enumerates strictly after
/// `from` passes through `i`.
pub open spec fn firing_reached(expr: Seq<char>, from: int, i: int) -> bool
    decreases i - from,
{
    cron_next(expr, from) == Some(i) || (match cron_next(expr, from) {
        Some(mid) => from < mid < i && firing_reached(expr, mid, i),
        None => false,
    })
}

proof fn lemma_firing_chain_extend(expr: Seq<char>, from: int, i: int, j: int)
    requires
        firing_reached(expr, from, i),
        from < i,
        cron_next(expr, i) == Some(j),
        i < j,
    ensures
        firing_reached(expr, from, j),
    decreases i - from,
{
    if cron_next(expr, from) == Some(i) {
        assert(firing_reached(expr, i, j));
    } else {
        let mid = cron_next(expr, from)->0;
        lemma_firing_chain_extend(expr, mid, i, j);
    }
}

/// `i` is the due instant of `expr` for the window
/// `[window_start, now]`: a firing of the expression, inside the
/// window, with no later firing at or before `now`.
pub open spec fn due_instant_is(
    expr: Seq<char>,
    window_start: int,
    now: int,
    i: int,
) -> bool {
    &&& window_start <= i <= now
    &&& firing_reached(expr, window_start - 1, i)
    &&& (match cron_next(expr, i) {
        Some(j) => j > now,
        None => true,
    })
}

/// The window `[window_start, now]` holds no firing of `expr` at all:
/// even the earliest firing at or after `window_start` lies past
/// `now`, or none exists.
pub open spec fn no_due_instant(expr: Seq<char>, window_start: int, now: int) -> bool {
    match cron_next(expr, window_start - 1) {
        Some(j) => j > now,
        None => true,
    }
}

/// Error of schedule evaluation: the cron expression does not parse.
#[derive(Clone, Copy, Debug, PartialEq, Eq, Structural)]
pub enum ScheduleError {
    InvalidExpression,
}

/// The due instant of `expr` in the window `[window_start, now]`: the
/// latest firing at or before `now` that falls inside the window, or
/// none when the window holds no firing. An unparseable expression is
/// reported as an error.
pub fn next_firing(expr: &str, window_start: i64, now: i64) -> (r: Result<
    Option<i64>,
    ScheduleError,
>)
    requires
        1 <= window_start <= now,
        now <= MAX_SCHEDULE_TS,
    ensures
        r is Ok <==> cron_valid(expr@),
        r matches Ok(Some(i)) ==> due_instant_is(expr@, window_start as int, now as int, i as int),
        r == Ok::<Option<i64>, ScheduleError>(None::<i64>) ==> no_due_instant(
            expr@,
            window_start as int,
            now as int,
        ),
{
    if !schedule_is_valid(expr) {
        return Err(ScheduleError::InvalidExpression);
    }
    let first = match schedule_next_after(expr, window_start - 1) {
        Some(i) => i,
        None => {
            return Ok(None);
        },
    };
    if first > now {
        return Ok(None);
    }
    let mut due = first;
    loop
        invariant
            cron_valid(expr@),
            1 <= window_start <= now <= MAX_SCHEDULE_TS,
            window_start <= due <= now,
            firing_reached(expr@, window_start - 1, due as int),
        decreases now - due,
    {
        match schedule_next_after(expr, due) {
            Some(next) => {
                if next <= now {
                    proof {
                        lemma_firing_chain_extend(
                            expr@,
                            window_start - 1,
                            due as int,
                            next as int,
                        );
                    }
                    due = next;
                } else {
                    return Ok(Some(due));
                }
            },
            None => {
                return Ok(Some(due));
            },
        }
    }
}

/// Cron expression that fires at the start of every minute.
pub fn schedule_every_minute() -> (r: String)
    ensures
        r@ == "0 * * * * *"@,
{
    String::from_str("0 * * * * *")
}

/// Cron expression that fires at the start of every hour.
pub fn schedule_hourly() -> (r: String)
    ensures
        r@ == "0 0 * * * *"@,
{
    String::from_str("0 0 * * * *")
}

/// Cron expression that fires daily at the given hour.
pub fn schedule_daily(hour: u8) -> (r: String)
    requires
        hour <= 23,
    ensures
        r@ == "0 0 "@ + dec_rep(hour as nat) + " * * *"@,
{
    let mut s = String::from_str("0 0 ");
    s.append(crate::text::u64_to_string(hour as u64).as_str());
    s.append(" * * *");
    proof {
        assert(s@ =~= "0 0 "@ + dec_rep(hour as nat) + " * * *"@);
    }
    s
}

/// Cron expression that fires weekly on the given day (0 = Sunday,
/// as cron numbers days) at the given hour.
pub fn schedule_weekly(hour: u8, day: u8) -> (r: String)
    requires
        hour <= 23,
        day <= 6,
    ensures
        r@ == "0 0 "@ + dec_rep(hour as nat) + " * * "@ + dec_rep(day as nat),
{
    let mut s = String::from_str("0 0 ");
    s.append(crate::text::u64_to_string(hour as u64).as_str());
    s.append(" * * ");
    s.append(crate::text::u64_to_string(day as u64).as_str());
    proof {
        assert(s@ =~= "0 0 "@ + dec_rep(hour as nat) + " * * "@ + dec_rep(day as nat));
    }
    s
}

/// Cron expression that fires monthly on the given date at the given
/// hour.
pub fn schedule_monthly(hour: u8, date: u8) -> (r: String)
    requires
        hour <= 23,
        1 <= date <= 31,
    ensures
        r@ == "0 0 "@ + dec_rep(hour as nat) + " "@ + dec_rep(date as nat) + " * *"@,
{
    let mut s = String::from_str("0 0 ");
    s.append(crate::text::u64_to_string(hour as u64).as_str());
    s.append(" ");
    s.append(crate::text::u64_to_string(date as u64).as_str());
    s.append(" * *");
    proof {
        assert(s@ =~= "0 0 "@ + dec_rep(hour as nat) + " "@ + dec_rep(date as nat) + " * *"@);
    }
    s
}

} // verus!
