use vstd::prelude::*;

verus! {

/// Whether cron accepts `s` as a schedule expression.
pub uninterp spec fn cron_accepts(s: Seq<char>) -> bool;

/// cron's schedule, carried through unopened.
#[verifier::external_type_specification]
#[verifier::external_body]
pub struct ExSchedule(cron::Schedule);

/// cron's parse error, carried through unopened.
#[verifier::external_type_specification]
#[verifier::external_body]
pub struct ExCronError(cron::error::Error);

/// Relies on cron's `FromStr` for `Schedule`, which parses the expression
/// and fails on one it does not accept; the outcome depends on the text
/// alone.
#[verifier::external_body]
fn parse_expression(s: &str) -> (r: Result<cron::Schedule, cron::error::Error>)
    ensures
        r is Ok == cron_accepts(s@),
{
    s.parse::<cron::Schedule>()
}

/// Why a schedule expression was refused.
pub enum ScheduleError {
    /// cron did not accept the expression; the cause is cron's own error.
    InvalidExpression(cron::error::Error),
}

/// Parses a cron expression into the schedule of repeated runs.
pub fn parse_cron(s: &str) -> (r: Result<cron::Schedule, ScheduleError>)
    ensures
        r is Ok == cron_accepts(s@),
{
    match parse_expression(s) {
        Ok(schedule) => Ok(schedule),
        Err(e) => Err(ScheduleError::InvalidExpression(e)),
    }
}

/// How long to wait, in milliseconds, from `now_ms` until a run due at
/// `next_ms`: nothing where it is due already.
pub fn wait_millis(next_ms: i64, now_ms: i64) -> (r: u64)
    ensures
        r == if next_ms > now_ms {
            next_ms - now_ms
        } else {
            0
        },
{
    if next_ms > now_ms {
        (next_ms as i128 - now_ms as i128) as u64
    } else {
        0
    }
}

/// How much the engine reports.
pub enum Verbosity {
    Error,
    Warn,
    Info,
    Debug,
    Trace,
}

/// The verbosity asked for by repeating a flag `count` times: errors only
/// by default, each repetition one level more, up to four.
pub fn verbosity(count: u8) -> (r: Option<Verbosity>)
    ensures
        r == match count {
            0 => Some(Verbosity::Error),
            1 => Some(Verbosity::Warn),
            2 => Some(Verbosity::Info),
            3 => Some(Verbosity::Debug),
            4 => Some(Verbosity::Trace),
            _ => None::<Verbosity>,
        },
{
    match count {
        0 => Some(Verbosity::Error),
        1 => Some(Verbosity::Warn),
        2 => Some(Verbosity::Info),
        3 => Some(Verbosity::Debug),
        4 => Some(Verbosity::Trace),
        _ => None,
    }
}

} // verus!
