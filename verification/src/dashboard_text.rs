//! The text of the telemetry dashboard.
//!
//! Rates, averages and spans come as texts: whole numbers for rates, one digit
//! after the point for minutes, and hours, minutes or seconds for spans.

use vstd::prelude::*;
use vstd::string::*;

use crate::dashboard::{
    AgentRow, AutoMergeReasonRow, DashboardMetrics, EngineerThroughputRow, HourlyThroughputRow,
    NonEngineerStallMetricRow, PriorityCycleTimeRow, ReleaseRecord,
};
use crate::metrics::InProgressTaskSummary;
use crate::paths;
use crate::text;
use crate::text::{
    copy, decimal_string, decimal_usize, padded_left, padded_right, repeated, signed_string,
};

verus! {

/// A value with its unit, or what is shown for none.
pub open spec fn shown(value: Option<String>, unit: Seq<char>, none: Seq<char>) -> Seq<char> {
    match value {
        Some(v) => v@ + unit,
        None => none,
    }
}

fn show(value: &Option<String>, unit: &str, none: &str) -> (r: String)
    ensures
        r@ == shown(*value, unit@, none@),
{
    match value {
        Some(v) => copy(v.as_str()).concat(unit),
        None => copy(none),
    }
}

/// What chrono writes for the hour that starts at this second with the format
/// `%m-%d %H:00`; nothing where `DateTime::from_timestamp` does not know it.
pub uninterp spec fn hour_label(hour_start: i64) -> Option<Seq<char>>;

/// The label of an hour, by chrono: `DateTime::from_timestamp`, then `format`
/// with month, day and hour. The contract says that the label depends on the
/// second alone.
#[verifier::external_body]
fn label_of_hour(hour_start: i64) -> (r: Option<String>)
    ensures
        paths::opt_view(r) == hour_label(hour_start),
{
    let hour = chrono::DateTime::from_timestamp(hour_start, 0)?;
    Some(hour.format("%m-%d %H:00").to_string())
}

/// The label of an hour, or else its first second.
pub open spec fn labelled(label: Option<Seq<char>>, hour_start: i64) -> Seq<char> {
    match label {
        Some(l) => l,
        None => text::signed(hour_start as int),
    }
}

/// How an hour is shown, given its label.
pub fn labelled_hour(label: Option<String>, hour_start: i64) -> (r: String)
    ensures
        r@ == labelled(paths::opt_view(label), hour_start),
{
    match label {
        Some(l) => l,
        None => signed_string(hour_start),
    }
}

/// How an hour is shown.
pub open spec fn hour_text(hour_start: i64) -> Seq<char> {
    labelled(hour_label(hour_start), hour_start)
}

fn hour_of(hour_start: i64) -> (r: String)
    ensures
        r@ == hour_text(hour_start),
{
    labelled_hour(label_of_hour(hour_start), hour_start)
}

/// The head of the dashboard, and the totals.
pub open spec fn totals_text(m: DashboardMetrics<String, String>) -> Seq<char> {
    "Telemetry Dashboard\n"@ + text::repeat('=', 60) + "\n\nSession Totals\n"@
        + text::repeat('-', 40) + "\n  Sessions:        "@ + text::signed(m.sessions_count as int)
        + "\n  Tasks Completed: "@ + text::signed(m.total_tasks_completed as int)
        + "\n  Total Merges:    "@ + text::signed(m.total_merges as int) + "\n  Total Events:    "@
        + text::signed(m.total_events as int) + "\n  Discord Events:  "@
        + text::signed(m.discord_events_sent as int) + "\n"@
}

fn totals(m: &DashboardMetrics<String, String>) -> (r: String)
    ensures
        r@ == totals_text(*m),
{
    copy("Telemetry Dashboard\n").concat(repeated('=', 60).as_str()).concat("\n\nSession Totals\n")
        .concat(repeated('-', 40).as_str()).concat("\n  Sessions:        ")
        .concat(signed_string(m.sessions_count).as_str()).concat("\n  Tasks Completed: ")
        .concat(signed_string(m.total_tasks_completed).as_str()).concat("\n  Total Merges:    ")
        .concat(signed_string(m.total_merges).as_str()).concat("\n  Total Events:    ")
        .concat(signed_string(m.total_events).as_str()).concat("\n  Discord Events:  ")
        .concat(signed_string(m.discord_events_sent).as_str()).concat("\n")
}

/// The cycle times.
pub open spec fn cycles_text(m: DashboardMetrics<String, String>) -> Seq<char> {
    "\nCycle Time\n"@ + text::repeat('-', 40) + "\n  Average: "@
        + shown(m.avg_cycle_time_secs, ""@, "n/a"@) + "\n  Min:     "@
        + shown(m.min_cycle_time_secs, ""@, "n/a"@) + "\n  Max:     "@
        + shown(m.max_cycle_time_secs, ""@, "n/a"@) + "\n"@
}

fn cycles(m: &DashboardMetrics<String, String>) -> (r: String)
    ensures
        r@ == cycles_text(*m),
{
    copy("\nCycle Time\n").concat(repeated('-', 40).as_str()).concat("\n  Average: ")
        .concat(show(&m.avg_cycle_time_secs, "", "n/a").as_str()).concat("\n  Min:     ")
        .concat(show(&m.min_cycle_time_secs, "", "n/a").as_str()).concat("\n  Max:     ")
        .concat(show(&m.max_cycle_time_secs, "", "n/a").as_str()).concat("\n")
}

/// The rates.
pub open spec fn rates_text(m: DashboardMetrics<String, String>) -> Seq<char> {
    "\nRates\n"@ + text::repeat('-', 40) + "\n  Completion Rate:    "@
        + shown(m.completion_rate, "%"@, "n/a"@) + "\n  Failure Rate:       "@
        + shown(m.failure_rate, "%"@, "n/a"@) + "\n  Merge Success Rate: "@
        + shown(m.merge_success_rate, "%"@, "n/a"@) + "\n"@
}

fn rates(m: &DashboardMetrics<String, String>) -> (r: String)
    ensures
        r@ == rates_text(*m),
{
    copy("\nRates\n").concat(repeated('-', 40).as_str()).concat("\n  Completion Rate:    ")
        .concat(show(&m.completion_rate, "%", "n/a").as_str()).concat("\n  Failure Rate:       ")
        .concat(show(&m.failure_rate, "%", "n/a").as_str()).concat("\n  Merge Success Rate: ")
        .concat(show(&m.merge_success_rate, "%", "n/a").as_str()).concat("\n")
}

/// The review pipeline.
pub open spec fn review_text(m: DashboardMetrics<String, String>) -> Seq<char> {
    "\nReview Pipeline\n"@ + text::repeat('-', 40) + "\n  Auto-merge Rate: "@
        + shown(m.auto_merge_rate, "%"@, "n/a"@) + "\n  Auto: "@
        + text::signed(m.auto_merge_count as int) + "  Manual: "@
        + text::signed(m.manual_merge_count as int) + "  Rework: "@
        + text::signed(m.rework_count as int) + "\n  Merge Modes: direct ok "@
        + text::signed(m.direct_root_merge_count as int) + " / fail "@
        + text::signed(m.direct_root_failure_count as int) + "  isolated ok "@
        + text::signed(m.isolated_integration_merge_count as int) + " / fail "@
        + text::signed(m.isolated_integration_failure_count as int) + "\n  Decision Accept Rate: "@
        + shown(m.decision_accept_rate, "%"@, "n/a"@) + " (accepted "@
        + text::signed(m.accepted_decision_count as int) + " / rejected "@
        + text::signed(m.rejected_decision_count as int) + ")\n  Post-merge Verify: pass "@
        + text::signed(m.post_merge_verify_pass_count as int) + "  fail "@
        + text::signed(m.post_merge_verify_fail_count as int) + "  skipped "@
        + text::signed(m.post_merge_verify_skip_count as int) + "\n  Rework Rate:     "@
        + shown(m.rework_rate, "%"@, "n/a"@) + "\n  Avg Review Latency: "@
        + shown(m.avg_review_latency_secs, ""@, "n/a"@) + "\n"@
}

fn review(m: &DashboardMetrics<String, String>) -> (r: String)
    ensures
        r@ == review_text(*m),
{
    copy("\nReview Pipeline\n").concat(repeated('-', 40).as_str()).concat("\n  Auto-merge Rate: ")
        .concat(show(&m.auto_merge_rate, "%", "n/a").as_str()).concat("\n  Auto: ")
        .concat(signed_string(m.auto_merge_count).as_str()).concat("  Manual: ")
        .concat(signed_string(m.manual_merge_count).as_str()).concat("  Rework: ")
        .concat(signed_string(m.rework_count).as_str()).concat("\n  Merge Modes: direct ok ")
        .concat(signed_string(m.direct_root_merge_count).as_str()).concat(" / fail ")
        .concat(signed_string(m.direct_root_failure_count).as_str()).concat("  isolated ok ")
        .concat(signed_string(m.isolated_integration_merge_count).as_str()).concat(" / fail ")
        .concat(signed_string(m.isolated_integration_failure_count).as_str())
        .concat("\n  Decision Accept Rate: ")
        .concat(show(&m.decision_accept_rate, "%", "n/a").as_str()).concat(" (accepted ")
        .concat(signed_string(m.accepted_decision_count).as_str()).concat(" / rejected ")
        .concat(signed_string(m.rejected_decision_count).as_str())
        .concat(")\n  Post-merge Verify: pass ")
        .concat(signed_string(m.post_merge_verify_pass_count).as_str()).concat("  fail ")
        .concat(signed_string(m.post_merge_verify_fail_count).as_str()).concat("  skipped ")
        .concat(signed_string(m.post_merge_verify_skip_count).as_str())
        .concat("\n  Rework Rate:     ").concat(show(&m.rework_rate, "%", "n/a").as_str())
        .concat("\n  Avg Review Latency: ")
        .concat(show(&m.avg_review_latency_secs, "", "n/a").as_str()).concat("\n")
}

/// The health of the subsystems.
pub open spec fn health_text(m: DashboardMetrics<String, String>) -> Seq<char> {
    "\nSubsystem Health\n"@ + text::repeat('-', 40) + "\n  Verification: pass "@
        + text::signed(m.verification_pass_count as int) + "  fail "@
        + text::signed(m.verification_fail_count as int) + "  pass-rate "@
        + shown(m.verification_pass_rate, "%"@, "n/a"@) + "\n  Merge Queue Depth: "@
        + text::signed(m.merge_queue_depth as int) + "\n  Notification Isolation: "@
        + text::signed(m.notification_isolation_count as int) + "\n  Notification Latency: "@
        + shown(m.avg_notification_delivery_latency_secs, ""@, "n/a"@) + "\n"@
}

fn health(m: &DashboardMetrics<String, String>) -> (r: String)
    ensures
        r@ == health_text(*m),
{
    copy("\nSubsystem Health\n").concat(repeated('-', 40).as_str())
        .concat("\n  Verification: pass ").concat(signed_string(m.verification_pass_count).as_str())
        .concat("  fail ").concat(signed_string(m.verification_fail_count).as_str())
        .concat("  pass-rate ").concat(show(&m.verification_pass_rate, "%", "n/a").as_str())
        .concat("\n  Merge Queue Depth: ").concat(signed_string(m.merge_queue_depth).as_str())
        .concat("\n  Notification Isolation: ")
        .concat(signed_string(m.notification_isolation_count).as_str())
        .concat("\n  Notification Latency: ")
        .concat(show(&m.avg_notification_delivery_latency_secs, "", "n/a").as_str()).concat("\n")
}

/// A line of it.
pub open spec fn reasons_row_text(row: AutoMergeReasonRow) -> Seq<char> {
    "    - "@ + row.reason@ + " ("@ + text::signed(row.count as int) + ")\n"@
}

fn reasons_row(row: &AutoMergeReasonRow) -> (r: String)
    ensures
        r@ == reasons_row_text(*row),
{
    copy("    - ").concat(row.reason.as_str()).concat(" (")
        .concat(signed_string(row.count).as_str()).concat(")\n")
}

/// The first `n` lines of it.
pub open spec fn reasons_rows_text(rows: Seq<AutoMergeReasonRow>, n: int) -> Seq<char>
    decreases n,
{
    if n <= 0 {
        Seq::empty()
    } else {
        reasons_rows_text(rows, n - 1) + reasons_row_text(rows[n - 1])
    }
}

/// Why auto-merges were rejected: the first five reasons.
pub open spec fn reasons_text(rows: Seq<AutoMergeReasonRow>) -> Seq<char> {
    if rows.len() == 0 {
        Seq::empty()
    } else {
        "  Rejection Reasons:\n"@ + reasons_rows_text(
            rows,
            if rows.len() <= 5 { rows.len() as int } else { 5 },
        )
    }
}

fn reasons(rows: &Vec<AutoMergeReasonRow>) -> (r: String)
    ensures
        r@ == reasons_text(rows@),
{
    if rows.len() == 0 {
        return String::new();
    }
    let n: usize = if rows.len() <= 5 { rows.len() } else { 5 };
    let head: String = copy("  Rejection Reasons:\n");
    let ghost top = head@;
    let mut out: String = head;
    let mut i: usize = 0;
    assert(top + reasons_rows_text(rows@, 0) == top);
    while i < n
        invariant
            i <= n <= rows@.len(),
            out@ == top + reasons_rows_text(rows@, i as int),
        decreases n - i,
    {
        let line: String = reasons_row(&rows[i]);
        out = out.concat(line.as_str());
        i += 1;
        assert(out@ == top + (reasons_rows_text(rows@, i - 1) + line@));
    }
    out
}

/// A line of it.
pub open spec fn stalls_row_text(row: NonEngineerStallMetricRow<String>) -> Seq<char> {
    "  "@ + text::pad_right(row.role@, 16) + " "@ + text::pad_right(row.lane@, 9) + " "@
        + text::pad_right(row.signal@, 28) + " "@
        + text::pad_left(text::signed(row.count as int), 5) + " "@
        + text::pad_left(row.max_stall_secs@, 8) + "\n"@
}

fn stalls_row(row: &NonEngineerStallMetricRow<String>) -> (r: String)
    ensures
        r@ == stalls_row_text(*row),
{
    copy("  ").concat(padded_right(row.role.as_str(), 16).as_str()).concat(" ")
        .concat(padded_right(row.lane.as_str(), 9).as_str()).concat(" ")
        .concat(padded_right(row.signal.as_str(), 28).as_str()).concat(" ")
        .concat(padded_left(signed_string(row.count).as_str(), 5).as_str()).concat(" ")
        .concat(padded_left(row.max_stall_secs.as_str(), 8).as_str()).concat("\n")
}

/// The first `n` lines of it.
pub open spec fn stalls_rows_text(rows: Seq<NonEngineerStallMetricRow<String>>, n: int) -> Seq<char>
    decreases n,
{
    if n <= 0 {
        Seq::empty()
    } else {
        stalls_rows_text(rows, n - 1) + stalls_row_text(rows[n - 1])
    }
}

/// Who stalled other than engineers.
pub open spec fn stalls_text(rows: Seq<NonEngineerStallMetricRow<String>>) -> Seq<char> {
    if rows.len() == 0 {
        Seq::empty()
    } else {
        "\nNon-Engineer Stall SLOs\n"@ + text::repeat('-', 60) + "\n  "@
            + text::pad_right("ROLE"@, 16) + " "@ + text::pad_right("LANE"@, 9) + " "@
            + text::pad_right("SIGNAL"@, 28) + " "@ + text::pad_left("COUNT"@, 5) + " "@
            + text::pad_left("MAX"@, 8) + "\n"@ + stalls_rows_text(
            rows,
            rows.len() as int,
        )
    }
}

fn stalls(rows: &Vec<NonEngineerStallMetricRow<String>>) -> (r: String)
    ensures
        r@ == stalls_text(rows@),
{
    if rows.len() == 0 {
        return String::new();
    }
    let n: usize = rows.len();
    let head: String = copy("\nNon-Engineer Stall SLOs\n").concat(repeated('-', 60).as_str())
        .concat("\n  ").concat(padded_right("ROLE", 16).as_str()).concat(" ")
        .concat(padded_right("LANE", 9).as_str()).concat(" ")
        .concat(padded_right("SIGNAL", 28).as_str()).concat(" ")
        .concat(padded_left("COUNT", 5).as_str()).concat(" ").concat(padded_left("MAX", 8).as_str())
        .concat("\n");
    let ghost top = head@;
    let mut out: String = head;
    let mut i: usize = 0;
    assert(top + stalls_rows_text(rows@, 0) == top);
    while i < n
        invariant
            i <= n <= rows@.len(),
            out@ == top + stalls_rows_text(rows@, i as int),
        decreases n - i,
    {
        let line: String = stalls_row(&rows[i]);
        out = out.concat(line.as_str());
        i += 1;
        assert(out@ == top + (stalls_rows_text(rows@, i - 1) + line@));
    }
    out
}

/// A line of it.
pub open spec fn priorities_row_text(row: PriorityCycleTimeRow<String>) -> Seq<char> {
    "  "@ + text::pad_right(row.priority@, 10) + " "@
        + text::pad_left(row.average_cycle_time_mins@, 8) + " min ("@
        + text::pad_left(text::signed(row.completed_tasks as int), 2) + " tasks)\n"@
}

fn priorities_row(row: &PriorityCycleTimeRow<String>) -> (r: String)
    ensures
        r@ == priorities_row_text(*row),
{
    copy("  ").concat(padded_right(row.priority.as_str(), 10).as_str()).concat(" ")
        .concat(padded_left(row.average_cycle_time_mins.as_str(), 8).as_str()).concat(" min (")
        .concat(padded_left(signed_string(row.completed_tasks).as_str(), 2).as_str())
        .concat(" tasks)\n")
}

/// The first `n` lines of it.
pub open spec fn priorities_rows_text(rows: Seq<PriorityCycleTimeRow<String>>, n: int) -> Seq<char>
    decreases n,
{
    if n <= 0 {
        Seq::empty()
    } else {
        priorities_rows_text(rows, n - 1) + priorities_row_text(rows[n - 1])
    }
}

/// The average cycle times by priority.
pub open spec fn priorities_text(rows: Seq<PriorityCycleTimeRow<String>>) -> Seq<char> {
    if rows.len() == 0 {
        Seq::empty()
    } else {
        "\nAverage Cycle Time By Priority\n"@ + text::repeat('-', 50) + "\n"@
            + priorities_rows_text(
            rows,
            rows.len() as int,
        )
    }
}

fn priorities(rows: &Vec<PriorityCycleTimeRow<String>>) -> (r: String)
    ensures
        r@ == priorities_text(rows@),
{
    if rows.len() == 0 {
        return String::new();
    }
    let n: usize = rows.len();
    let head: String = copy("\nAverage Cycle Time By Priority\n").concat(repeated('-', 50).as_str())
        .concat("\n");
    let ghost top = head@;
    let mut out: String = head;
    let mut i: usize = 0;
    assert(top + priorities_rows_text(rows@, 0) == top);
    while i < n
        invariant
            i <= n <= rows@.len(),
            out@ == top + priorities_rows_text(rows@, i as int),
        decreases n - i,
    {
        let line: String = priorities_row(&rows[i]);
        out = out.concat(line.as_str());
        i += 1;
        assert(out@ == top + (priorities_rows_text(rows@, i - 1) + line@));
    }
    out
}

/// A line of it.
pub open spec fn hours_row_text(row: HourlyThroughputRow) -> Seq<char> {
    "  "@ + hour_text(row.hour_start) + "  "@
        + text::pad_left(text::signed(row.completed_tasks as int), 2) + "\n"@
}

fn hours_row(row: &HourlyThroughputRow) -> (r: String)
    ensures
        r@ == hours_row_text(*row),
{
    copy("  ").concat(hour_of(row.hour_start).as_str()).concat("  ")
        .concat(padded_left(signed_string(row.completed_tasks).as_str(), 2).as_str()).concat("\n")
}

/// The first `n` lines of it.
pub open spec fn hours_rows_text(rows: Seq<HourlyThroughputRow>, n: int) -> Seq<char>
    decreases n,
{
    if n <= 0 {
        Seq::empty()
    } else {
        hours_rows_text(rows, n - 1) + hours_row_text(rows[n - 1])
    }
}

/// What was completed in each hour.
pub open spec fn hours_text(rows: Seq<HourlyThroughputRow>) -> Seq<char> {
    if rows.len() == 0 {
        Seq::empty()
    } else {
        "\nTasks Completed Per Hour (Last 24h)\n"@ + text::repeat('-', 50) + "\n"@
            + hours_rows_text(
            rows,
            rows.len() as int,
        )
    }
}

fn hours(rows: &Vec<HourlyThroughputRow>) -> (r: String)
    ensures
        r@ == hours_text(rows@),
{
    if rows.len() == 0 {
        return String::new();
    }
    let n: usize = rows.len();
    let head: String = copy("\nTasks Completed Per Hour (Last 24h)\n")
        .concat(repeated('-', 50).as_str()).concat("\n");
    let ghost top = head@;
    let mut out: String = head;
    let mut i: usize = 0;
    assert(top + hours_rows_text(rows@, 0) == top);
    while i < n
        invariant
            i <= n <= rows@.len(),
            out@ == top + hours_rows_text(rows@, i as int),
        decreases n - i,
    {
        let line: String = hours_row(&rows[i]);
        out = out.concat(line.as_str());
        i += 1;
        assert(out@ == top + (hours_rows_text(rows@, i - 1) + line@));
    }
    out
}

/// A line of it.
pub open spec fn ranks_row_text(row: EngineerThroughputRow<String>, i: int) -> Seq<char> {
    "  "@ + text::decimal((i + 1) as nat) + ". "@ + row.engineer@ + "  completed="@
        + text::signed(row.completed_tasks as int) + "  avg_cycle="@
        + shown(row.average_cycle_time_mins, "m"@, "n/a"@) + "  avg_lead="@
        + shown(row.average_lead_time_mins, "m"@, "n/a"@) + "\n"@
}

fn ranks_row(row: &EngineerThroughputRow<String>, i: usize) -> (r: String)
    requires
        i < usize::MAX,
    ensures
        r@ == ranks_row_text(*row, i as int),
{
    copy("  ").concat(decimal_usize(i + 1).as_str()).concat(". ").concat(row.engineer.as_str())
        .concat("  completed=").concat(signed_string(row.completed_tasks).as_str())
        .concat("  avg_cycle=").concat(show(&row.average_cycle_time_mins, "m", "n/a").as_str())
        .concat("  avg_lead=").concat(show(&row.average_lead_time_mins, "m", "n/a").as_str())
        .concat("\n")
}

/// The first `n` lines of it.
pub open spec fn ranks_rows_text(rows: Seq<EngineerThroughputRow<String>>, n: int) -> Seq<char>
    decreases n,
{
    if n <= 0 {
        Seq::empty()
    } else {
        ranks_rows_text(rows, n - 1) + ranks_row_text(rows[n - 1], n - 1)
    }
}

/// The engineers by what they completed.
pub open spec fn ranks_text(rows: Seq<EngineerThroughputRow<String>>) -> Seq<char> {
    if rows.len() == 0 {
        Seq::empty()
    } else {
        "\nEngineer Throughput Ranking\n"@ + text::repeat('-', 60) + "\n"@ + ranks_rows_text(
            rows,
            rows.len() as int,
        )
    }
}

fn ranks(rows: &Vec<EngineerThroughputRow<String>>) -> (r: String)
    ensures
        r@ == ranks_text(rows@),
{
    if rows.len() == 0 {
        return String::new();
    }
    let n: usize = rows.len();
    let head: String = copy("\nEngineer Throughput Ranking\n").concat(repeated('-', 60).as_str())
        .concat("\n");
    let ghost top = head@;
    let mut out: String = head;
    let mut i: usize = 0;
    assert(top + ranks_rows_text(rows@, 0) == top);
    while i < n
        invariant
            i <= n <= rows@.len(),
            out@ == top + ranks_rows_text(rows@, i as int),
        decreases n - i,
    {
        let line: String = ranks_row(&rows[i], i);
        out = out.concat(line.as_str());
        i += 1;
        assert(out@ == top + (ranks_rows_text(rows@, i - 1) + line@));
    }
    out
}

/// A line of it.
pub open spec fn running_row_text(row: InProgressTaskSummary) -> Seq<char> {
    "  #"@ + text::decimal(row.task_id as nat) + " "@ + row.title@ + " ["@ + row.priority@
        + "] owner="@ + shown(row.engineer, ""@, "unassigned"@) + " age="@
        + text::signed(row.minutes_in_progress as int) + "m\n"@
}

fn running_row(row: &InProgressTaskSummary) -> (r: String)
    ensures
        r@ == running_row_text(*row),
{
    copy("  #").concat(decimal_string(row.task_id as u64).as_str()).concat(" ")
        .concat(row.title.as_str()).concat(" [").concat(row.priority.as_str()).concat("] owner=")
        .concat(show(&row.engineer, "", "unassigned").as_str()).concat(" age=")
        .concat(signed_string(row.minutes_in_progress).as_str()).concat("m\n")
}

/// The first `n` lines of it.
pub open spec fn running_rows_text(rows: Seq<InProgressTaskSummary>, n: int) -> Seq<char>
    decreases n,
{
    if n <= 0 {
        Seq::empty()
    } else {
        running_rows_text(rows, n - 1) + running_row_text(rows[n - 1])
    }
}

/// What has been in progress the longest.
pub open spec fn running_text(rows: Seq<InProgressTaskSummary>) -> Seq<char> {
    if rows.len() == 0 {
        Seq::empty()
    } else {
        "\nLongest-Running In-Progress Tasks\n"@ + text::repeat('-', 60) + "\n"@
            + running_rows_text(
            rows,
            rows.len() as int,
        )
    }
}

fn running(rows: &Vec<InProgressTaskSummary>) -> (r: String)
    ensures
        r@ == running_text(rows@),
{
    if rows.len() == 0 {
        return String::new();
    }
    let n: usize = rows.len();
    let head: String = copy("\nLongest-Running In-Progress Tasks\n")
        .concat(repeated('-', 60).as_str()).concat("\n");
    let ghost top = head@;
    let mut out: String = head;
    let mut i: usize = 0;
    assert(top + running_rows_text(rows@, 0) == top);
    while i < n
        invariant
            i <= n <= rows@.len(),
            out@ == top + running_rows_text(rows@, i as int),
        decreases n - i,
    {
        let line: String = running_row(&rows[i]);
        out = out.concat(line.as_str());
        i += 1;
        assert(out@ == top + (running_rows_text(rows@, i - 1) + line@));
    }
    out
}

/// A line of it.
pub open spec fn agents_row_text(row: AgentRow<String>) -> Seq<char> {
    "  "@ + text::pad_right(row.role@, 16) + " "@
        + text::pad_left(text::signed(row.completions as int), 6) + " "@
        + text::pad_left(text::signed(row.failures as int), 6) + " "@
        + text::pad_left(text::signed(row.restarts as int), 6) + " "@
        + text::pad_left(text::signed(row.total_cycle_secs as int), 10) + " "@
        + text::pad_left(shown(row.idle_pct, "%"@, "-"@), 8) + "\n"@
}

fn agents_row(row: &AgentRow<String>) -> (r: String)
    ensures
        r@ == agents_row_text(*row),
{
    copy("  ").concat(padded_right(row.role.as_str(), 16).as_str()).concat(" ")
        .concat(padded_left(signed_string(row.completions).as_str(), 6).as_str()).concat(" ")
        .concat(padded_left(signed_string(row.failures).as_str(), 6).as_str()).concat(" ")
        .concat(padded_left(signed_string(row.restarts).as_str(), 6).as_str()).concat(" ")
        .concat(padded_left(signed_string(row.total_cycle_secs).as_str(), 10).as_str()).concat(" ")
        .concat(padded_left(show(&row.idle_pct, "%", "-").as_str(), 8).as_str()).concat("\n")
}

/// The first `n` lines of it.
pub open spec fn agents_rows_text(rows: Seq<AgentRow<String>>, n: int) -> Seq<char>
    decreases n,
{
    if n <= 0 {
        Seq::empty()
    } else {
        agents_rows_text(rows, n - 1) + agents_row_text(rows[n - 1])
    }
}

/// The agents.
pub open spec fn agents_text(rows: Seq<AgentRow<String>>) -> Seq<char> {
    if rows.len() == 0 {
        Seq::empty()
    } else {
        "\nPer-Agent Breakdown\n"@ + text::repeat('-', 60) + "\n  "@ + text::pad_right("ROLE"@, 16)
            + " "@ + text::pad_left("DONE"@, 6) + " "@ + text::pad_left("FAIL"@, 6) + " "@
            + text::pad_left("RESTART"@, 6) + " "@ + text::pad_left("CYCLE_S"@, 10) + " "@
            + text::pad_left("IDLE%"@, 8) + "\n"@ + agents_rows_text(
            rows,
            rows.len() as int,
        )
    }
}

fn agents(rows: &Vec<AgentRow<String>>) -> (r: String)
    ensures
        r@ == agents_text(rows@),
{
    if rows.len() == 0 {
        return String::new();
    }
    let n: usize = rows.len();
    let head: String = copy("\nPer-Agent Breakdown\n").concat(repeated('-', 60).as_str())
        .concat("\n  ").concat(padded_right("ROLE", 16).as_str()).concat(" ")
        .concat(padded_left("DONE", 6).as_str()).concat(" ").concat(padded_left("FAIL", 6).as_str())
        .concat(" ").concat(padded_left("RESTART", 6).as_str()).concat(" ")
        .concat(padded_left("CYCLE_S", 10).as_str()).concat(" ")
        .concat(padded_left("IDLE%", 8).as_str()).concat("\n");
    let ghost top = head@;
    let mut out: String = head;
    let mut i: usize = 0;
    assert(top + agents_rows_text(rows@, 0) == top);
    while i < n
        invariant
            i <= n <= rows@.len(),
            out@ == top + agents_rows_text(rows@, i as int),
        decreases n - i,
    {
        let line: String = agents_row(&rows[i]);
        out = out.concat(line.as_str());
        i += 1;
        assert(out@ == top + (agents_rows_text(rows@, i - 1) + line@));
    }
    out
}

/// The latest release.
pub open spec fn release_text(release: Option<ReleaseRecord>) -> Seq<char> {
    match release {
        Some(r) => "\nLatest Release\n"@ + text::repeat('-', 40) + "\n  "@ + shown(
            r.tag,
            ""@,
            "unversioned"@,
        ) + " "@ + shown(r.git_ref, ""@, "unknown-ref"@) + " ("@ + (if r.success {
            "success"@
        } else {
            "failure"@
        }) + ")\n  Reason: "@ + r.reason@ + "\n"@ + (match r.details {
            Some(d) => "  Details: "@ + d@ + "\n"@,
            None => Seq::empty(),
        }),
        None => Seq::empty(),
    }
}

fn latest(release: &Option<ReleaseRecord>) -> (r: String)
    ensures
        r@ == release_text(*release),
{
    match release {
        Some(r) => {
            let status: String = if r.success {
                copy("success")
            } else {
                copy("failure")
            };
            let details: String = match &r.details {
                Some(d) => copy("  Details: ").concat(d.as_str()).concat("\n"),
                None => String::new(),
            };
            copy("\nLatest Release\n").concat(repeated('-', 40).as_str()).concat("\n  ").concat(
                show(&r.tag, "", "unversioned").as_str(),
            ).concat(" ").concat(show(&r.git_ref, "", "unknown-ref").as_str()).concat(
                " (",
            ).concat(status.as_str()).concat(")\n  Reason: ").concat(r.reason.as_str()).concat(
                "\n",
            ).concat(details.as_str())
        },
        None => String::new(),
    }
}

/// The text of a dashboard.
pub open spec fn dashboard_text(m: DashboardMetrics<String, String>) -> Seq<char> {
    totals_text(m) + cycles_text(m) + rates_text(m) + review_text(m) + reasons_text(
        m.rejection_reasons@,
    ) + health_text(m) + stalls_text(m.non_engineer_stalls@) + priorities_text(
        m.cycle_time_by_priority@,
    ) + hours_text(m.tasks_completed_per_hour@) + ranks_text(m.engineer_throughput@)
        + running_text(m.longest_running_tasks@) + release_text(m.latest_release) + agents_text(
        m.agent_rows@,
    )
}

/// Formats the dashboard for a terminal.
pub fn format_dashboard(m: &DashboardMetrics<String, String>) -> (r: String)
    ensures
        r@ == dashboard_text(*m),
{
    totals(m).concat(cycles(m).as_str()).concat(rates(m).as_str()).concat(
        review(m).as_str(),
    ).concat(reasons(&m.rejection_reasons).as_str()).concat(health(m).as_str()).concat(
        stalls(&m.non_engineer_stalls).as_str(),
    ).concat(priorities(&m.cycle_time_by_priority).as_str()).concat(
        hours(&m.tasks_completed_per_hour).as_str(),
    ).concat(ranks(&m.engineer_throughput).as_str()).concat(
        running(&m.longest_running_tasks).as_str(),
    ).concat(latest(&m.latest_release).as_str()).concat(agents(&m.agent_rows).as_str())
}

/// What is shown where there is no telemetry.
pub fn no_telemetry() -> (r: String)
    ensures
        r@ == "Telemetry Dashboard\n"@ + text::repeat('=', 60)
            + "\n\nNo telemetry database found. Run `batty start` to begin collecting data.\n"@,
{
    copy("Telemetry Dashboard\n").concat(repeated('=', 60).as_str()).concat(
        "\n\nNo telemetry database found. Run `batty start` to begin collecting data.\n",
    )
}

} // verus!
