//! Health checks: indicator results and their aggregate.
use vstd::prelude::*;

verus! {

/// Health status reported by a health indicator.
#[derive(Debug, Clone, Copy, PartialEq, Eq, Structural)]
pub enum HealthStatus {
    Up,
    Down,
}

/// Result of one indicator: its status and optional details (a JSON document).
#[derive(Debug, Clone, PartialEq, Eq)]
pub struct HealthIndicatorResult {
    pub status: HealthStatus,
    pub details: Option<String>,
}

impl HealthIndicatorResult {
    pub fn up() -> (r: Self)
        ensures
            r.status == HealthStatus::Up,
            r.details is None,
    {
        HealthIndicatorResult { status: HealthStatus::Up, details: None }
    }

    pub fn down() -> (r: Self)
        ensures
            r.status == HealthStatus::Down,
            r.details is None,
    {
        HealthIndicatorResult { status: HealthStatus::Down, details: None }
    }

    /// The result with `details` attached.
    pub fn with_details(self, details: &str) -> (r: Self)
        ensures
            r.status == self.status,
            r.details matches Some(d) && d@ == details@,
    {
        HealthIndicatorResult { details: Some(details.to_owned()), ..self }
    }
}

/// The aggregate of all indicators: down when any is down, with every
/// result in order.
#[derive(Debug, Clone, PartialEq, Eq)]
pub struct HealthCheckResult {
    pub status: HealthStatus,
    pub details: Vec<HealthIndicatorResult>,
}

/// Whether some result is down.
pub open spec fn any_down(results: Seq<HealthIndicatorResult>) -> bool {
    exists|i: int| 0 <= i < results.len() && (#[trigger] results[i]).status == HealthStatus::Down
}

/// The aggregate of the indicators' results, in the order they ran.
pub fn aggregate_health(results: Vec<HealthIndicatorResult>) -> (r: HealthCheckResult)
    ensures
        r.details@ == results@,
        r.status == if any_down(results@) {
            HealthStatus::Down
        } else {
            HealthStatus::Up
        },
{
    let mut status = HealthStatus::Up;
    let mut i: usize = 0;
    while i < results.len()
        invariant
            i <= results@.len(),
            status == if exists|j: int| 0 <= j < i && (#[trigger] results@[j]).status == HealthStatus::Down {
                HealthStatus::Down
            } else {
                HealthStatus::Up
            },
        decreases results@.len() - i,
    {
        if results[i].status == HealthStatus::Down {
            status = HealthStatus::Down;
        }
        i += 1;
    }
    HealthCheckResult { status, details: results }
}

} // verus!
