//! The telemetry dashboard: totals, rates, cycle times and the review
//! pipeline.
//!
//! Rates and averages are numbers that only callers calculate with, so the
//! dashboard is written for any type `F` of them, and for any type `D` of
//! spans of time. A dashboard that is to be shown has texts for both.

use vstd::prelude::*;

use crate::metrics::InProgressTaskSummary;

verus! {

/// How often an auto-merge was rejected for a reason.
#[derive(Clone, Debug, PartialEq)]
pub struct AutoMergeReasonRow {
    pub reason: String,
    pub count: i64,
}

/// How often and how long somebody other than an engineer stalled.
#[derive(Clone, Debug, PartialEq)]
pub struct NonEngineerStallMetricRow<D> {
    pub role: String,
    pub lane: String,
    pub signal: String,
    pub count: i64,
    pub max_stall_secs: D,
}

/// The average cycle time of a priority.
#[derive(Clone, Debug, PartialEq)]
pub struct PriorityCycleTimeRow<F> {
    pub priority: String,
    pub average_cycle_time_mins: F,
    pub completed_tasks: i64,
}

/// What an engineer completed.
#[derive(Clone, Debug, PartialEq)]
pub struct EngineerThroughputRow<F> {
    pub engineer: String,
    pub completed_tasks: i64,
    pub average_cycle_time_mins: Option<F>,
    pub average_lead_time_mins: Option<F>,
}

/// What was completed in an hour.
#[derive(Clone, Copy, Debug, PartialEq)]
pub struct HourlyThroughputRow {
    pub hour_start: i64,
    pub completed_tasks: i64,
}

/// A release.
#[derive(Clone, Debug, PartialEq)]
pub struct ReleaseRecord {
    pub success: bool,
    pub tag: Option<String>,
    pub git_ref: Option<String>,
    pub reason: String,
    pub details: Option<String>,
}

/// Per-agent row in the dashboard.
#[derive(Clone, Debug, PartialEq)]
pub struct AgentRow<F> {
    pub role: String,
    pub completions: i64,
    pub failures: i64,
    pub restarts: i64,
    pub total_cycle_secs: i64,
    pub idle_pct: Option<F>,
}

/// What the dashboard shows.
#[derive(Clone, Debug, PartialEq)]
pub struct DashboardMetrics<F, D> {
    // Session totals
    pub total_tasks_completed: i64,
    pub total_merges: i64,
    pub total_events: i64,
    pub sessions_count: i64,
    pub discord_events_sent: i64,
    pub verification_pass_count: i64,
    pub verification_fail_count: i64,
    pub verification_pass_rate: Option<F>,
    pub notification_isolation_count: i64,
    pub avg_notification_delivery_latency_secs: Option<F>,
    pub merge_queue_depth: i64,
    pub non_engineer_stalls: Vec<NonEngineerStallMetricRow<D>>,
    // Cycle time
    pub avg_cycle_time_secs: Option<F>,
    pub min_cycle_time_secs: Option<D>,
    pub max_cycle_time_secs: Option<D>,
    // Rates
    pub completion_rate: Option<F>,
    pub failure_rate: Option<F>,
    pub merge_success_rate: Option<F>,
    // Review pipeline
    pub auto_merge_count: i64,
    pub manual_merge_count: i64,
    pub direct_root_merge_count: i64,
    pub isolated_integration_merge_count: i64,
    pub direct_root_failure_count: i64,
    pub isolated_integration_failure_count: i64,
    pub auto_merge_rate: Option<F>,
    pub accepted_decision_count: i64,
    pub rejected_decision_count: i64,
    pub decision_accept_rate: Option<F>,
    pub rejection_reasons: Vec<AutoMergeReasonRow>,
    pub post_merge_verify_pass_count: i64,
    pub post_merge_verify_fail_count: i64,
    pub post_merge_verify_skip_count: i64,
    pub rework_count: i64,
    pub rework_rate: Option<F>,
    pub avg_review_latency_secs: Option<F>,
    // Per-agent breakdown
    pub agent_rows: Vec<AgentRow<F>>,
    // Task cycle time tracking
    pub cycle_time_by_priority: Vec<PriorityCycleTimeRow<F>>,
    pub engineer_throughput: Vec<EngineerThroughputRow<F>>,
    pub tasks_completed_per_hour: Vec<HourlyThroughputRow>,
    pub longest_running_tasks: Vec<InProgressTaskSummary>,
    pub latest_release: Option<ReleaseRecord>,
}

/// Nothing is counted, no rate is known and every table is empty.
pub open spec fn is_empty_dashboard<F, D>(m: DashboardMetrics<F, D>) -> bool {
    &&& m.total_tasks_completed == 0
    &&& m.total_merges == 0
    &&& m.total_events == 0
    &&& m.sessions_count == 0
    &&& m.discord_events_sent == 0
    &&& m.verification_pass_count == 0
    &&& m.verification_fail_count == 0
    &&& m.verification_pass_rate is None
    &&& m.notification_isolation_count == 0
    &&& m.avg_notification_delivery_latency_secs is None
    &&& m.merge_queue_depth == 0
    &&& m.non_engineer_stalls@.len() == 0
    &&& m.avg_cycle_time_secs is None
    &&& m.min_cycle_time_secs is None
    &&& m.max_cycle_time_secs is None
    &&& m.completion_rate is None
    &&& m.failure_rate is None
    &&& m.merge_success_rate is None
    &&& m.auto_merge_count == 0
    &&& m.manual_merge_count == 0
    &&& m.direct_root_merge_count == 0
    &&& m.isolated_integration_merge_count == 0
    &&& m.direct_root_failure_count == 0
    &&& m.isolated_integration_failure_count == 0
    &&& m.auto_merge_rate is None
    &&& m.accepted_decision_count == 0
    &&& m.rejected_decision_count == 0
    &&& m.decision_accept_rate is None
    &&& m.rejection_reasons@.len() == 0
    &&& m.post_merge_verify_pass_count == 0
    &&& m.post_merge_verify_fail_count == 0
    &&& m.post_merge_verify_skip_count == 0
    &&& m.rework_count == 0
    &&& m.rework_rate is None
    &&& m.avg_review_latency_secs is None
    &&& m.agent_rows@.len() == 0
    &&& m.cycle_time_by_priority@.len() == 0
    &&& m.engineer_throughput@.len() == 0
    &&& m.tasks_completed_per_hour@.len() == 0
    &&& m.longest_running_tasks@.len() == 0
    &&& m.latest_release is None
}

impl<F, D> Default for DashboardMetrics<F, D> {
    fn default() -> (r: Self)
        ensures
            is_empty_dashboard(r),
    {
        DashboardMetrics {
            total_tasks_completed: 0,
            total_merges: 0,
            total_events: 0,
            sessions_count: 0,
            discord_events_sent: 0,
            verification_pass_count: 0,
            verification_fail_count: 0,
            verification_pass_rate: None,
            notification_isolation_count: 0,
            avg_notification_delivery_latency_secs: None,
            merge_queue_depth: 0,
            non_engineer_stalls: Vec::new(),
            avg_cycle_time_secs: None,
            min_cycle_time_secs: None,
            max_cycle_time_secs: None,
            completion_rate: None,
            failure_rate: None,
            merge_success_rate: None,
            auto_merge_count: 0,
            manual_merge_count: 0,
            direct_root_merge_count: 0,
            isolated_integration_merge_count: 0,
            direct_root_failure_count: 0,
            isolated_integration_failure_count: 0,
            auto_merge_rate: None,
            accepted_decision_count: 0,
            rejected_decision_count: 0,
            decision_accept_rate: None,
            rejection_reasons: Vec::new(),
            post_merge_verify_pass_count: 0,
            post_merge_verify_fail_count: 0,
            post_merge_verify_skip_count: 0,
            rework_count: 0,
            rework_rate: None,
            avg_review_latency_secs: None,
            agent_rows: Vec::new(),
            cycle_time_by_priority: Vec::new(),
            engineer_throughput: Vec::new(),
            tasks_completed_per_hour: Vec::new(),
            longest_running_tasks: Vec::new(),
            latest_release: None,
        }
    }
}

/// What the telemetry says about a session.
#[derive(Clone, Copy, Debug)]
pub struct SessionSummaryRow {
    pub tasks_completed: i64,
    pub total_merges: i64,
    pub total_events: i64,
    pub discord_events_sent: i64,
    pub verification_passes: i64,
    pub verification_failures: i64,
    pub notification_isolations: i64,
    pub notification_latency_total_secs: i64,
    pub notification_latency_samples: i64,
}

/// What the telemetry says about an agent.
#[derive(Clone, Debug)]
pub struct AgentMetricsRow {
    pub role: String,
    pub completions: i64,
    pub failures: i64,
    pub restarts: i64,
    pub total_cycle_secs: i64,
    pub idle_polls: i64,
    pub working_polls: i64,
}

/// What the telemetry says about a task's times.
#[derive(Clone, Copy, Debug)]
pub struct TaskTimesRow {
    pub started_at: Option<i64>,
    pub completed_at: Option<i64>,
}

/// What the telemetry says about reviews.
#[derive(Clone, Debug)]
pub struct ReviewMetricsRow<F> {
    pub auto_merge_count: i64,
    pub manual_merge_count: i64,
    pub direct_root_merge_count: i64,
    pub isolated_integration_merge_count: i64,
    pub direct_root_failure_count: i64,
    pub isolated_integration_failure_count: i64,
    pub rework_count: i64,
    pub avg_review_latency_secs: Option<F>,
    pub accepted_decision_count: i64,
    pub rejected_decision_count: i64,
    pub rejection_reasons: Vec<AutoMergeReasonRow>,
    pub post_merge_verify_pass_count: i64,
    pub post_merge_verify_fail_count: i64,
    pub post_merge_verify_skip_count: i64,
}

/// All that is read from the telemetry database.
pub struct TelemetryRows<F> {
    pub sessions: Vec<SessionSummaryRow>,
    pub agents: Vec<AgentMetricsRow>,
    pub tasks: Vec<TaskTimesRow>,
    pub review: ReviewMetricsRow<F>,
    pub merge_queue_depth: i64,
    pub non_engineer_stalls: Vec<NonEngineerStallMetricRow<i64>>,
    pub cycle_time_by_priority: Vec<PriorityCycleTimeRow<F>>,
    pub engineer_throughput: Vec<EngineerThroughputRow<F>>,
    /// There are records of cycle times.
    pub has_cycle_times: bool,
    /// What was completed in each of the last hours.
    pub hourly: Vec<HourlyThroughputRow>,
}

// ---------------------------------------------------------------------------
// Sums

/// The sum of one number over all rows.
pub open spec fn total<R>(rows: Seq<R>, of: spec_fn(R) -> i64) -> int
    decreases rows.len(),
{
    if rows.len() == 0 {
        0
    } else {
        total(rows.drop_last(), of) + of(rows.last())
    }
}

/// Every sum that comes up fits.
pub open spec fn sums_fit<R>(rows: Seq<R>, of: spec_fn(R) -> i64) -> bool {
    forall|n: int| 0 <= n <= rows.len() ==> i64::MIN <= #[trigger] total(rows.take(n), of) <= i64::MAX
}

/// The value fits.
pub open spec fn fits(n: int) -> bool {
    i64::MIN <= n <= i64::MAX
}

/// The numbers of a session.
pub open spec fn session_total(rows: Seq<SessionSummaryRow>) -> (
    int,
    int,
    int,
    int,
    int,
    int,
    int,
    int,
    int,
) {
    (
        total(rows, |s: SessionSummaryRow| s.tasks_completed),
        total(rows, |s: SessionSummaryRow| s.total_merges),
        total(rows, |s: SessionSummaryRow| s.total_events),
        total(rows, |s: SessionSummaryRow| s.discord_events_sent),
        total(rows, |s: SessionSummaryRow| s.verification_passes),
        total(rows, |s: SessionSummaryRow| s.verification_failures),
        total(rows, |s: SessionSummaryRow| s.notification_isolations),
        total(rows, |s: SessionSummaryRow| s.notification_latency_total_secs),
        total(rows, |s: SessionSummaryRow| s.notification_latency_samples),
    )
}

/// Every sum over the sessions fits.
pub open spec fn sessions_fit(rows: Seq<SessionSummaryRow>) -> bool {
    &&& sums_fit(rows, |s: SessionSummaryRow| s.tasks_completed)
    &&& sums_fit(rows, |s: SessionSummaryRow| s.total_merges)
    &&& sums_fit(rows, |s: SessionSummaryRow| s.total_events)
    &&& sums_fit(rows, |s: SessionSummaryRow| s.discord_events_sent)
    &&& sums_fit(rows, |s: SessionSummaryRow| s.verification_passes)
    &&& sums_fit(rows, |s: SessionSummaryRow| s.verification_failures)
    &&& sums_fit(rows, |s: SessionSummaryRow| s.notification_isolations)
    &&& sums_fit(rows, |s: SessionSummaryRow| s.notification_latency_total_secs)
    &&& sums_fit(rows, |s: SessionSummaryRow| s.notification_latency_samples)
}

struct SessionSums {
    tasks_completed: i64,
    total_merges: i64,
    total_events: i64,
    discord_events_sent: i64,
    verification_passes: i64,
    verification_failures: i64,
    notification_isolations: i64,
    latency_secs: i64,
    latency_samples: i64,
}

impl SessionSums {
    spec fn all(self) -> (int, int, int, int, int, int, int, int, int) {
        (
            self.tasks_completed as int,
            self.total_merges as int,
            self.total_events as int,
            self.discord_events_sent as int,
            self.verification_passes as int,
            self.verification_failures as int,
            self.notification_isolations as int,
            self.latency_secs as int,
            self.latency_samples as int,
        )
    }
}

proof fn lemma_total_step<R>(rows: Seq<R>, of: spec_fn(R) -> i64, i: int)
    requires
        0 <= i < rows.len(),
        sums_fit(rows, of),
    ensures
        total(rows.take(i + 1), of) == total(rows.take(i), of) + of(rows[i]),
        fits(total(rows.take(i), of) + of(rows[i])),
{
    assert(rows.take(i + 1).drop_last() == rows.take(i));
    assert(i64::MIN <= total(rows.take(i + 1), of) <= i64::MAX);
}

fn sum_sessions(rows: &Vec<SessionSummaryRow>) -> (r: SessionSums)
    requires
        sessions_fit(rows@),
    ensures
        r.all() == session_total(rows@),
{
    let mut t: SessionSums = SessionSums {
        tasks_completed: 0,
        total_merges: 0,
        total_events: 0,
        discord_events_sent: 0,
        verification_passes: 0,
        verification_failures: 0,
        notification_isolations: 0,
        latency_secs: 0,
        latency_samples: 0,
    };
    let mut i: usize = 0;
    while i < rows.len()
        invariant
            i <= rows@.len(),
            sessions_fit(rows@),
            t.all() == session_total(rows@.take(i as int)),
        decreases rows@.len() - i,
    {
        proof {
            let n = i as int;
            lemma_total_step(rows@, |s: SessionSummaryRow| s.tasks_completed, n);
            lemma_total_step(rows@, |s: SessionSummaryRow| s.total_merges, n);
            lemma_total_step(rows@, |s: SessionSummaryRow| s.total_events, n);
            lemma_total_step(rows@, |s: SessionSummaryRow| s.discord_events_sent, n);
            lemma_total_step(rows@, |s: SessionSummaryRow| s.verification_passes, n);
            lemma_total_step(rows@, |s: SessionSummaryRow| s.verification_failures, n);
            lemma_total_step(rows@, |s: SessionSummaryRow| s.notification_isolations, n);
            lemma_total_step(rows@, |s: SessionSummaryRow| s.notification_latency_total_secs, n);
            lemma_total_step(rows@, |s: SessionSummaryRow| s.notification_latency_samples, n);
        }
        let s: &SessionSummaryRow = &rows[i];
        t = SessionSums {
            tasks_completed: t.tasks_completed + s.tasks_completed,
            total_merges: t.total_merges + s.total_merges,
            total_events: t.total_events + s.total_events,
            discord_events_sent: t.discord_events_sent + s.discord_events_sent,
            verification_passes: t.verification_passes + s.verification_passes,
            verification_failures: t.verification_failures + s.verification_failures,
            notification_isolations: t.notification_isolations + s.notification_isolations,
            latency_secs: t.latency_secs + s.notification_latency_total_secs,
            latency_samples: t.latency_samples + s.notification_latency_samples,
        };
        i += 1;
    }
    assert(rows@.take(i as int) == rows@);
    t
}

// ---------------------------------------------------------------------------
// Rates

/// This is the quotient of two numbers, where the second is above zero.
pub open spec fn is_quotient<F, Q: Fn(i64, i64) -> F>(
    quotient: Q,
    part: int,
    whole: int,
    r: Option<F>,
) -> bool {
    match r {
        Some(x) => whole > 0 && call_ensures(quotient, (part as i64, whole as i64), x),
        None => whole <= 0,
    }
}

fn divide<F, Q: Fn(i64, i64) -> F>(quotient: &Q, part: i64, whole: i64) -> (r: Option<F>)
    requires
        forall|a: i64, b: i64| b > 0 ==> #[trigger] call_requires(*quotient, (a, b)),
    ensures
        is_quotient(*quotient, part as int, whole as int, r),
{
    if whole > 0 {
        Some(quotient(part, whole))
    } else {
        None
    }
}

// ---------------------------------------------------------------------------
// Agents

/// Every sum over the agents fits.
pub open spec fn agents_fit(rows: Seq<AgentMetricsRow>) -> bool {
    &&& sums_fit(rows, |a: AgentMetricsRow| a.completions)
    &&& sums_fit(rows, |a: AgentMetricsRow| a.failures)
    &&& fits(
        total(rows, |a: AgentMetricsRow| a.completions) + total(
            rows,
            |a: AgentMetricsRow| a.failures,
        ),
    )
    &&& forall|i: int|
        0 <= i < rows.len() ==> fits(
            (#[trigger] rows[i]).idle_polls + rows[i].working_polls,
        )
}

/// This is the row of an agent.
pub open spec fn is_agent_row<F, P: Fn(i64, i64) -> F>(
    percent: P,
    a: AgentMetricsRow,
    r: AgentRow<F>,
) -> bool {
    &&& r.role == a.role
    &&& r.completions == a.completions
    &&& r.failures == a.failures
    &&& r.restarts == a.restarts
    &&& r.total_cycle_secs == a.total_cycle_secs
    &&& is_quotient(
        percent,
        a.idle_polls as int,
        a.idle_polls + a.working_polls,
        r.idle_pct,
    )
}

/// These are the rows of some agents.
pub open spec fn are_agent_rows<F, P: Fn(i64, i64) -> F>(
    percent: P,
    agents: Seq<AgentMetricsRow>,
    rows: Seq<AgentRow<F>>,
) -> bool {
    &&& rows.len() == agents.len()
    &&& forall|i: int|
        0 <= i < agents.len() ==> is_agent_row(percent, agents[i], #[trigger] rows[i])
}

fn agent_rows<F, P: Fn(i64, i64) -> F>(agents: &Vec<AgentMetricsRow>, percent: &P) -> (r: (
    Vec<AgentRow<F>>,
    i64,
    i64,
))
    requires
        agents_fit(agents@),
        forall|a: i64, b: i64| b > 0 ==> #[trigger] call_requires(*percent, (a, b)),
    ensures
        are_agent_rows(*percent, agents@, r.0@),
        r.1 == total(agents@, |a: AgentMetricsRow| a.completions),
        r.2 == total(agents@, |a: AgentMetricsRow| a.failures),
{
    let mut out: Vec<AgentRow<F>> = Vec::new();
    let mut completions: i64 = 0;
    let mut failures: i64 = 0;
    let mut i: usize = 0;
    while i < agents.len()
        invariant
            i <= agents@.len(),
            agents_fit(agents@),
            forall|a: i64, b: i64| b > 0 ==> #[trigger] call_requires(*percent, (a, b)),
            out@.len() == i,
            forall|k: int|
                0 <= k < i ==> is_agent_row(*percent, agents@[k], #[trigger] out@[k]),
            completions == total(agents@.take(i as int), |a: AgentMetricsRow| a.completions),
            failures == total(agents@.take(i as int), |a: AgentMetricsRow| a.failures),
        decreases agents@.len() - i,
    {
        proof {
            lemma_total_step(agents@, |a: AgentMetricsRow| a.completions, i as int);
            lemma_total_step(agents@, |a: AgentMetricsRow| a.failures, i as int);
            assert(fits(agents@[i as int].idle_polls + agents@[i as int].working_polls));
        }
        let a: &AgentMetricsRow = &agents[i];
        completions += a.completions;
        failures += a.failures;
        let idle_pct: Option<F> = divide(percent, a.idle_polls, a.idle_polls + a.working_polls);
        out.push(
            AgentRow {
                role: a.role.clone(),
                completions: a.completions,
                failures: a.failures,
                restarts: a.restarts,
                total_cycle_secs: a.total_cycle_secs,
                idle_pct,
            },
        );
        i += 1;
    }
    assert(agents@.take(i as int) == agents@);
    (out, completions, failures)
}

// ---------------------------------------------------------------------------
// Cycle times

/// The time from the start to the later completion of a task.
pub open spec fn cycle_time(t: TaskTimesRow) -> Option<int> {
    match (t.started_at, t.completed_at) {
        (Some(s), Some(c)) => if c > s {
            Some(c - s)
        } else {
            None
        },
        _ => None,
    }
}

/// The cycle times of some tasks.
pub open spec fn cycle_times(rows: Seq<TaskTimesRow>) -> Seq<int>
    decreases rows.len(),
{
    if rows.len() == 0 {
        Seq::empty()
    } else {
        match cycle_time(rows.last()) {
            Some(t) => cycle_times(rows.drop_last()).push(t),
            None => cycle_times(rows.drop_last()),
        }
    }
}

/// The sum of some numbers.
pub open spec fn sum(s: Seq<int>) -> int
    decreases s.len(),
{
    if s.len() == 0 {
        0
    } else {
        sum(s.drop_last()) + s.last()
    }
}

/// The least of some numbers.
pub open spec fn is_least(s: Seq<int>, x: Option<i64>) -> bool {
    match x {
        Some(v) => s.contains(v as int) && forall|i: int| 0 <= i < s.len() ==> v <= #[trigger] s[i],
        None => s.len() == 0,
    }
}

/// The greatest of some numbers.
pub open spec fn is_greatest(s: Seq<int>, x: Option<i64>) -> bool {
    match x {
        Some(v) => s.contains(v as int) && forall|i: int| 0 <= i < s.len() ==> #[trigger] s[i] <= v,
        None => s.len() == 0,
    }
}

/// Every time and every sum that comes up fits.
pub open spec fn times_fit(rows: Seq<TaskTimesRow>) -> bool {
    &&& rows.len() <= i64::MAX
    &&& forall|i: int|
        0 <= i < rows.len() ==> (cycle_time(#[trigger] rows[i]) matches Some(t) ==> fits(t))
    &&& forall|n: int| 0 <= n <= rows.len() ==> fits(sum(cycle_times(#[trigger] rows.take(n))))
}

struct CycleSums {
    sum: i64,
    count: i64,
    least: Option<i64>,
    greatest: Option<i64>,
}

fn sum_cycles(rows: &Vec<TaskTimesRow>) -> (r: CycleSums)
    requires
        times_fit(rows@),
    ensures
        r.sum == sum(cycle_times(rows@)),
        r.count == cycle_times(rows@).len(),
        is_least(cycle_times(rows@), r.least),
        is_greatest(cycle_times(rows@), r.greatest),
{
    let mut r: CycleSums = CycleSums { sum: 0, count: 0, least: None, greatest: None };
    let mut i: usize = 0;
    while i < rows.len()
        invariant
            i <= rows@.len(),
            times_fit(rows@),
            r.sum == sum(cycle_times(rows@.take(i as int))),
            r.count == cycle_times(rows@.take(i as int)).len(),
            r.count <= i,
            is_least(cycle_times(rows@.take(i as int)), r.least),
            is_greatest(cycle_times(rows@.take(i as int)), r.greatest),
        decreases rows@.len() - i,
    {
        let ghost s0 = cycle_times(rows@.take(i as int));
        let ghost s1 = cycle_times(rows@.take(i + 1));
        proof {
            assert(rows@.take(i + 1).drop_last() == rows@.take(i as int));
            assert(cycle_time(rows@[i as int]) matches Some(t) ==> fits(t));
            assert(fits(sum(s1)));
        }
        if let (Some(s), Some(c)) = (rows[i].started_at, rows[i].completed_at) {
            if c > s {
                let t: i64 = c - s;
                assert(s1 == s0.push(t as int));
                assert(s1.drop_last() == s0);
                let least: i64 = match r.least {
                    Some(x) => if x <= t {
                        x
                    } else {
                        t
                    },
                    None => t,
                };
                let greatest: i64 = match r.greatest {
                    Some(x) => if x >= t {
                        x
                    } else {
                        t
                    },
                    None => t,
                };
                proof {
                    assert(s1[s0.len() as int] == t);
                    if r.least is Some && r.least->Some_0 <= t {
                        let k = choose|k: int| 0 <= k < s0.len() && s0[k] == r.least->Some_0;
                        assert(s1[k] == least);
                    }
                    if r.greatest is Some && r.greatest->Some_0 >= t {
                        let k = choose|k: int| 0 <= k < s0.len() && s0[k] == r.greatest->Some_0;
                        assert(s1[k] == greatest);
                    }
                    assert(s1.contains(least as int));
                    assert(s1.contains(greatest as int));
                    assert forall|k: int| 0 <= k < s1.len() implies least <= #[trigger] s1[k] by {
                        if k < s0.len() {
                            assert(s1[k] == s0[k]);
                        }
                    }
                    assert forall|k: int| 0 <= k < s1.len() implies #[trigger] s1[k]
                        <= greatest by {
                        if k < s0.len() {
                            assert(s1[k] == s0[k]);
                        }
                    }
                }
                r = CycleSums {
                    sum: r.sum + t,
                    count: r.count + 1,
                    least: Some(least),
                    greatest: Some(greatest),
                };
            }
        }
        i += 1;
    }
    assert(rows@.take(i as int) == rows@);
    r
}

// ---------------------------------------------------------------------------
// Dashboard

/// Every number that comes up fits.
pub open spec fn rows_fit<F>(rows: TelemetryRows<F>) -> bool {
    &&& rows.sessions@.len() <= i64::MAX
    &&& sessions_fit(rows.sessions@)
    &&& fits(session_total(rows.sessions@).4 + session_total(rows.sessions@).5)
    &&& agents_fit(rows.agents@)
    &&& times_fit(rows.tasks@)
    &&& fits(rows.review.auto_merge_count + rows.review.manual_merge_count)
    &&& fits(rows.review.accepted_decision_count + rows.review.rejected_decision_count)
    &&& fits(
        rows.review.auto_merge_count + rows.review.manual_merge_count + rows.review.rework_count,
    )
}

/// The session totals of a dashboard.
pub open spec fn has_session_totals<F, Q: Fn(i64, i64) -> F, P: Fn(i64, i64) -> F>(
    m: DashboardMetrics<F, i64>,
    rows: TelemetryRows<F>,
    mean: Q,
    percent: P,
) -> bool {
    let s = session_total(rows.sessions@);
    &&& m.sessions_count == rows.sessions@.len()
    &&& m.total_tasks_completed == s.0
    &&& m.total_merges == s.1
    &&& m.total_events == s.2
    &&& m.discord_events_sent == s.3
    &&& m.verification_pass_count == s.4
    &&& m.verification_fail_count == s.5
    &&& m.notification_isolation_count == s.6
    &&& is_quotient(mean, s.7, s.8, m.avg_notification_delivery_latency_secs)
    &&& is_quotient(percent, s.1, s.0, m.merge_success_rate)
    &&& is_quotient(percent, s.4, s.4 + s.5, m.verification_pass_rate)
}

/// The rates and cycle times of a dashboard.
pub open spec fn has_rates<F, Q: Fn(i64, i64) -> F, P: Fn(i64, i64) -> F>(
    m: DashboardMetrics<F, i64>,
    rows: TelemetryRows<F>,
    mean: Q,
    percent: P,
) -> bool {
    let done = total(rows.agents@, |a: AgentMetricsRow| a.completions);
    let failed = total(rows.agents@, |a: AgentMetricsRow| a.failures);
    let times = cycle_times(rows.tasks@);
    &&& are_agent_rows(percent, rows.agents@, m.agent_rows@)
    &&& is_quotient(percent, done, done + failed, m.completion_rate)
    &&& is_quotient(percent, failed, done + failed, m.failure_rate)
    &&& is_quotient(mean, sum(times), times.len() as int, m.avg_cycle_time_secs)
    &&& is_least(times, m.min_cycle_time_secs)
    &&& is_greatest(times, m.max_cycle_time_secs)
}

/// The review pipeline of a dashboard.
pub open spec fn has_review<F, P: Fn(i64, i64) -> F>(
    m: DashboardMetrics<F, i64>,
    v: ReviewMetricsRow<F>,
    percent: P,
) -> bool {
    let merged = v.auto_merge_count + v.manual_merge_count;
    &&& m.auto_merge_count == v.auto_merge_count
    &&& m.manual_merge_count == v.manual_merge_count
    &&& m.direct_root_merge_count == v.direct_root_merge_count
    &&& m.isolated_integration_merge_count == v.isolated_integration_merge_count
    &&& m.direct_root_failure_count == v.direct_root_failure_count
    &&& m.isolated_integration_failure_count == v.isolated_integration_failure_count
    &&& m.rework_count == v.rework_count
    &&& m.avg_review_latency_secs == v.avg_review_latency_secs
    &&& m.accepted_decision_count == v.accepted_decision_count
    &&& m.rejected_decision_count == v.rejected_decision_count
    &&& m.rejection_reasons == v.rejection_reasons
    &&& m.post_merge_verify_pass_count == v.post_merge_verify_pass_count
    &&& m.post_merge_verify_fail_count == v.post_merge_verify_fail_count
    &&& m.post_merge_verify_skip_count == v.post_merge_verify_skip_count
    &&& is_quotient(percent, v.auto_merge_count as int, merged, m.auto_merge_rate)
    &&& is_quotient(
        percent,
        v.accepted_decision_count as int,
        v.accepted_decision_count + v.rejected_decision_count,
        m.decision_accept_rate,
    )
    &&& is_quotient(percent, v.rework_count as int, merged + v.rework_count, m.rework_rate)
}

/// What a dashboard takes over from the telemetry.
pub open spec fn has_tables<F>(m: DashboardMetrics<F, i64>, rows: TelemetryRows<F>) -> bool {
    &&& m.merge_queue_depth == rows.merge_queue_depth
    &&& m.non_engineer_stalls == rows.non_engineer_stalls
    &&& m.cycle_time_by_priority == rows.cycle_time_by_priority
    &&& m.engineer_throughput == rows.engineer_throughput
    &&& if rows.has_cycle_times {
        m.tasks_completed_per_hour == rows.hourly
    } else {
        m.tasks_completed_per_hour@.len() == 0
    }
    &&& m.longest_running_tasks@.len() == 0
    &&& m.latest_release is None
}

/// Builds the dashboard from the telemetry: `mean` divides, `percent` divides
/// and takes the result times a hundred.
pub fn query_dashboard<F, Q: Fn(i64, i64) -> F, P: Fn(i64, i64) -> F>(
    rows: TelemetryRows<F>,
    mean: &Q,
    percent: &P,
) -> (m: DashboardMetrics<F, i64>)
    requires
        rows_fit(rows),
        forall|a: i64, b: i64| b > 0 ==> #[trigger] call_requires(*mean, (a, b)),
        forall|a: i64, b: i64| b > 0 ==> #[trigger] call_requires(*percent, (a, b)),
    ensures
        has_session_totals(m, rows, *mean, *percent),
        has_rates(m, rows, *mean, *percent),
        has_review(m, rows.review, *percent),
        has_tables(m, rows),
{
    let sessions_count: i64 = rows.sessions.len() as i64;
    let s: SessionSums = sum_sessions(&rows.sessions);
    let agents: (Vec<AgentRow<F>>, i64, i64) = agent_rows(&rows.agents, percent);
    let outcomes: i64 = agents.1 + agents.2;
    let cycles: CycleSums = sum_cycles(&rows.tasks);
    let review: ReviewMetricsRow<F> = rows.review;
    let merged: i64 = review.auto_merge_count + review.manual_merge_count;
    let decisions: i64 = review.accepted_decision_count + review.rejected_decision_count;
    let verified: i64 = s.verification_passes + s.verification_failures;
    DashboardMetrics {
        total_tasks_completed: s.tasks_completed,
        total_merges: s.total_merges,
        total_events: s.total_events,
        sessions_count,
        discord_events_sent: s.discord_events_sent,
        verification_pass_count: s.verification_passes,
        verification_fail_count: s.verification_failures,
        verification_pass_rate: divide(percent, s.verification_passes, verified),
        notification_isolation_count: s.notification_isolations,
        avg_notification_delivery_latency_secs: divide(mean, s.latency_secs, s.latency_samples),
        merge_queue_depth: rows.merge_queue_depth,
        non_engineer_stalls: rows.non_engineer_stalls,
        avg_cycle_time_secs: divide(mean, cycles.sum, cycles.count),
        min_cycle_time_secs: cycles.least,
        max_cycle_time_secs: cycles.greatest,
        completion_rate: divide(percent, agents.1, outcomes),
        failure_rate: divide(percent, agents.2, outcomes),
        merge_success_rate: divide(percent, s.total_merges, s.tasks_completed),
        auto_merge_count: review.auto_merge_count,
        manual_merge_count: review.manual_merge_count,
        direct_root_merge_count: review.direct_root_merge_count,
        isolated_integration_merge_count: review.isolated_integration_merge_count,
        direct_root_failure_count: review.direct_root_failure_count,
        isolated_integration_failure_count: review.isolated_integration_failure_count,
        auto_merge_rate: divide(percent, review.auto_merge_count, merged),
        accepted_decision_count: review.accepted_decision_count,
        rejected_decision_count: review.rejected_decision_count,
        decision_accept_rate: divide(percent, review.accepted_decision_count, decisions),
        rework_rate: divide(percent, review.rework_count, merged + review.rework_count),
        rejection_reasons: review.rejection_reasons,
        post_merge_verify_pass_count: review.post_merge_verify_pass_count,
        post_merge_verify_fail_count: review.post_merge_verify_fail_count,
        post_merge_verify_skip_count: review.post_merge_verify_skip_count,
        rework_count: review.rework_count,
        avg_review_latency_secs: review.avg_review_latency_secs,
        agent_rows: agents.0,
        cycle_time_by_priority: rows.cycle_time_by_priority,
        engineer_throughput: rows.engineer_throughput,
        tasks_completed_per_hour: if rows.has_cycle_times {
            rows.hourly
        } else {
            Vec::new()
        },
        longest_running_tasks: Vec::new(),
        latest_release: None,
    }
}

// ---------------------------------------------------------------------------
// Laws

/// Nothing was recorded.
pub open spec fn is_empty_telemetry<F>(rows: TelemetryRows<F>) -> bool {
    let v = rows.review;
    &&& rows.sessions@.len() == 0
    &&& rows.agents@.len() == 0
    &&& rows.tasks@.len() == 0
    &&& rows.merge_queue_depth == 0
    &&& rows.non_engineer_stalls@.len() == 0
    &&& rows.cycle_time_by_priority@.len() == 0
    &&& rows.engineer_throughput@.len() == 0
    &&& !rows.has_cycle_times
    &&& v.auto_merge_count == 0
    &&& v.manual_merge_count == 0
    &&& v.direct_root_merge_count == 0
    &&& v.isolated_integration_merge_count == 0
    &&& v.direct_root_failure_count == 0
    &&& v.isolated_integration_failure_count == 0
    &&& v.rework_count == 0
    &&& v.avg_review_latency_secs is None
    &&& v.accepted_decision_count == 0
    &&& v.rejected_decision_count == 0
    &&& v.rejection_reasons@.len() == 0
    &&& v.post_merge_verify_pass_count == 0
    &&& v.post_merge_verify_fail_count == 0
    &&& v.post_merge_verify_skip_count == 0
}

/// Where nothing was recorded, the dashboard is the default one.
pub proof fn law_empty_telemetry_gives_the_default_dashboard<
    F,
    Q: Fn(i64, i64) -> F,
    P: Fn(i64, i64) -> F,
>(m: DashboardMetrics<F, i64>, rows: TelemetryRows<F>, mean: Q, percent: P)
    requires
        is_empty_telemetry(rows),
        has_session_totals(m, rows, mean, percent),
        has_rates(m, rows, mean, percent),
        has_review(m, rows.review, percent),
        has_tables(m, rows),
    ensures
        is_empty_dashboard(m),
{
}

} // verus!
