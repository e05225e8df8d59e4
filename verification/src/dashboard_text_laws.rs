//! What a dashboard shows: every number stands behind its label, and every row
//! of a table has its line.

use vstd::prelude::*;

use crate::dashboard::{
    AgentRow, AutoMergeReasonRow, DashboardMetrics, EngineerThroughputRow, HourlyThroughputRow,
    NonEngineerStallMetricRow, PriorityCycleTimeRow,
};
use crate::dashboard_text;
use crate::metrics::InProgressTaskSummary;
use crate::text;
use crate::text_laws::{lemma_holds, lemma_holds_within, lemma_parts, lemma_shows, shows};

verus! {

type Shown = DashboardMetrics<String, String>;

/// What is shown for a value that may be unknown.
pub open spec fn or_unknown(value: Option<String>, unit: Seq<char>) -> Seq<char> {
    match value {
        Some(v) => v@ + unit,
        None => "n/a"@,
    }
}

proof fn lemma_two_parts(head: Seq<char>, s: Seq<char>, rest: Seq<char>)
    ensures
        head + (s + rest) == head + s + rest,
{
    assert(head + (s + rest) =~= head + s + rest);
}


/// The totals are shown by their labels.
pub proof fn law_totals_are_labelled(m: Shown)
    ensures
        ({
            let t = dashboard_text::totals_text(m);
            &&& shows(t, "\n  Sessions:        "@, text::signed(m.sessions_count as int))
            &&& shows(t, "\n  Tasks Completed: "@, text::signed(m.total_tasks_completed as int))
            &&& shows(t, "\n  Total Merges:    "@, text::signed(m.total_merges as int))
            &&& shows(t, "\n  Total Events:    "@, text::signed(m.total_events as int))
            &&& shows(t, "\n  Discord Events:  "@, text::signed(m.discord_events_sent as int))
        }),
{
    let t = dashboard_text::totals_text(m);
    let h0 = "Telemetry Dashboard\n"@ + text::repeat('=', 60) + "\n\nSession Totals\n"@
        + text::repeat('-', 40);
    let h1 = h0 + "\n  Sessions:        "@ + text::signed(m.sessions_count as int);
    let h2 = h1 + "\n  Tasks Completed: "@ + text::signed(m.total_tasks_completed as int);
    let h3 = h2 + "\n  Total Merges:    "@ + text::signed(m.total_merges as int);
    let h4 = h3 + "\n  Total Events:    "@ + text::signed(m.total_events as int);
    let h5 = h4 + "\n  Discord Events:  "@ + text::signed(m.discord_events_sent as int);
    let r5 = "\n"@;
    assert(t == h5 + r5);
    lemma_shows(h4, "\n  Discord Events:  "@, text::signed(m.discord_events_sent as int), r5);
    let r4 = "\n  Discord Events:  "@ + text::signed(m.discord_events_sent as int) + r5;
    lemma_parts(h4, "\n  Discord Events:  "@, text::signed(m.discord_events_sent as int), r5);
    lemma_shows(h3, "\n  Total Events:    "@, text::signed(m.total_events as int), r4);
    let r3 = "\n  Total Events:    "@ + text::signed(m.total_events as int) + r4;
    lemma_parts(h3, "\n  Total Events:    "@, text::signed(m.total_events as int), r4);
    lemma_shows(h2, "\n  Total Merges:    "@, text::signed(m.total_merges as int), r3);
    let r2 = "\n  Total Merges:    "@ + text::signed(m.total_merges as int) + r3;
    lemma_parts(h2, "\n  Total Merges:    "@, text::signed(m.total_merges as int), r3);
    lemma_shows(h1, "\n  Tasks Completed: "@, text::signed(m.total_tasks_completed as int), r2);
    let r1 = "\n  Tasks Completed: "@ + text::signed(m.total_tasks_completed as int) + r2;
    lemma_parts(h1, "\n  Tasks Completed: "@, text::signed(m.total_tasks_completed as int), r2);
    lemma_shows(h0, "\n  Sessions:        "@, text::signed(m.sessions_count as int), r1);
}

/// The cycle times are shown by their labels.
pub proof fn law_cycle_times_are_labelled(m: Shown)
    ensures
        ({
            let t = dashboard_text::cycles_text(m);
            &&& shows(t, "\n  Average: "@, or_unknown(m.avg_cycle_time_secs, ""@))
            &&& shows(t, "\n  Min:     "@, or_unknown(m.min_cycle_time_secs, ""@))
            &&& shows(t, "\n  Max:     "@, or_unknown(m.max_cycle_time_secs, ""@))
        }),
{
    let t = dashboard_text::cycles_text(m);
    let h0 = "\nCycle Time\n"@ + text::repeat('-', 40);
    let h1 = h0 + "\n  Average: "@ + or_unknown(m.avg_cycle_time_secs, ""@);
    let h2 = h1 + "\n  Min:     "@ + or_unknown(m.min_cycle_time_secs, ""@);
    let h3 = h2 + "\n  Max:     "@ + or_unknown(m.max_cycle_time_secs, ""@);
    let r3 = "\n"@;
    assert(t == h3 + r3);
    lemma_shows(h2, "\n  Max:     "@, or_unknown(m.max_cycle_time_secs, ""@), r3);
    let r2 = "\n  Max:     "@ + or_unknown(m.max_cycle_time_secs, ""@) + r3;
    lemma_parts(h2, "\n  Max:     "@, or_unknown(m.max_cycle_time_secs, ""@), r3);
    lemma_shows(h1, "\n  Min:     "@, or_unknown(m.min_cycle_time_secs, ""@), r2);
    let r1 = "\n  Min:     "@ + or_unknown(m.min_cycle_time_secs, ""@) + r2;
    lemma_parts(h1, "\n  Min:     "@, or_unknown(m.min_cycle_time_secs, ""@), r2);
    lemma_shows(h0, "\n  Average: "@, or_unknown(m.avg_cycle_time_secs, ""@), r1);
}

/// The rates are shown by their labels.
pub proof fn law_rates_are_labelled(m: Shown)
    ensures
        ({
            let t = dashboard_text::rates_text(m);
            &&& shows(t, "\n  Completion Rate:    "@, or_unknown(m.completion_rate, "%"@))
            &&& shows(t, "\n  Failure Rate:       "@, or_unknown(m.failure_rate, "%"@))
            &&& shows(t, "\n  Merge Success Rate: "@, or_unknown(m.merge_success_rate, "%"@))
        }),
{
    let t = dashboard_text::rates_text(m);
    let h0 = "\nRates\n"@ + text::repeat('-', 40);
    let h1 = h0 + "\n  Completion Rate:    "@ + or_unknown(m.completion_rate, "%"@);
    let h2 = h1 + "\n  Failure Rate:       "@ + or_unknown(m.failure_rate, "%"@);
    let h3 = h2 + "\n  Merge Success Rate: "@ + or_unknown(m.merge_success_rate, "%"@);
    let r3 = "\n"@;
    assert(t == h3 + r3);
    lemma_shows(h2, "\n  Merge Success Rate: "@, or_unknown(m.merge_success_rate, "%"@), r3);
    let r2 = "\n  Merge Success Rate: "@ + or_unknown(m.merge_success_rate, "%"@) + r3;
    lemma_parts(h2, "\n  Merge Success Rate: "@, or_unknown(m.merge_success_rate, "%"@), r3);
    lemma_shows(h1, "\n  Failure Rate:       "@, or_unknown(m.failure_rate, "%"@), r2);
    let r1 = "\n  Failure Rate:       "@ + or_unknown(m.failure_rate, "%"@) + r2;
    lemma_parts(h1, "\n  Failure Rate:       "@, or_unknown(m.failure_rate, "%"@), r2);
    lemma_shows(h0, "\n  Completion Rate:    "@, or_unknown(m.completion_rate, "%"@), r1);
}

/// The numbers on reviews are shown by their labels.
pub proof fn law_review_numbers_are_labelled(m: Shown)
    ensures
        ({
            let t = dashboard_text::review_text(m);
            &&& shows(t, "\n  Auto-merge Rate: "@, or_unknown(m.auto_merge_rate, "%"@))
            &&& shows(t, "\n  Auto: "@, text::signed(m.auto_merge_count as int))
            &&& shows(t, "  Manual: "@, text::signed(m.manual_merge_count as int))
            &&& shows(t, "  Rework: "@, text::signed(m.rework_count as int))
            &&& shows(
                t,
                "\n  Merge Modes: direct ok "@,
                text::signed(m.direct_root_merge_count as int),
            )
            &&& shows(t, " / fail "@, text::signed(m.direct_root_failure_count as int))
            &&& shows(t, "  isolated ok "@, text::signed(m.isolated_integration_merge_count as int))
            &&& shows(t, " / fail "@, text::signed(m.isolated_integration_failure_count as int))
            &&& shows(t, "\n  Decision Accept Rate: "@, or_unknown(m.decision_accept_rate, "%"@))
            &&& shows(t, " (accepted "@, text::signed(m.accepted_decision_count as int))
            &&& shows(t, " / rejected "@, text::signed(m.rejected_decision_count as int))
            &&& shows(
                t,
                ")\n  Post-merge Verify: pass "@,
                text::signed(m.post_merge_verify_pass_count as int),
            )
            &&& shows(t, "  fail "@, text::signed(m.post_merge_verify_fail_count as int))
            &&& shows(t, "  skipped "@, text::signed(m.post_merge_verify_skip_count as int))
            &&& shows(t, "\n  Rework Rate:     "@, or_unknown(m.rework_rate, "%"@))
            &&& shows(t, "\n  Avg Review Latency: "@, or_unknown(m.avg_review_latency_secs, ""@))
        }),
{
    let t = dashboard_text::review_text(m);
    let h0 = "\nReview Pipeline\n"@ + text::repeat('-', 40);
    let h1 = h0 + "\n  Auto-merge Rate: "@ + or_unknown(m.auto_merge_rate, "%"@);
    let h2 = h1 + "\n  Auto: "@ + text::signed(m.auto_merge_count as int);
    let h3 = h2 + "  Manual: "@ + text::signed(m.manual_merge_count as int);
    let h4 = h3 + "  Rework: "@ + text::signed(m.rework_count as int);
    let h5 = h4 + "\n  Merge Modes: direct ok "@ + text::signed(m.direct_root_merge_count as int);
    let h6 = h5 + " / fail "@ + text::signed(m.direct_root_failure_count as int);
    let h7 = h6 + "  isolated ok "@ + text::signed(m.isolated_integration_merge_count as int);
    let h8 = h7 + " / fail "@ + text::signed(m.isolated_integration_failure_count as int);
    let h9 = h8 + "\n  Decision Accept Rate: "@ + or_unknown(m.decision_accept_rate, "%"@);
    let h10 = h9 + " (accepted "@ + text::signed(m.accepted_decision_count as int);
    let h11 = h10 + " / rejected "@ + text::signed(m.rejected_decision_count as int);
    let h12 = h11 + ")\n  Post-merge Verify: pass "@
        + text::signed(m.post_merge_verify_pass_count as int);
    let h13 = h12 + "  fail "@ + text::signed(m.post_merge_verify_fail_count as int);
    let h14 = h13 + "  skipped "@ + text::signed(m.post_merge_verify_skip_count as int);
    let h15 = h14 + "\n  Rework Rate:     "@ + or_unknown(m.rework_rate, "%"@);
    let h16 = h15 + "\n  Avg Review Latency: "@ + or_unknown(m.avg_review_latency_secs, ""@);
    let r16 = "\n"@;
    assert(t == h16 + r16);
    lemma_shows(h15, "\n  Avg Review Latency: "@, or_unknown(m.avg_review_latency_secs, ""@), r16);
    let r15 = "\n  Avg Review Latency: "@ + or_unknown(m.avg_review_latency_secs, ""@) + r16;
    lemma_parts(h15, "\n  Avg Review Latency: "@, or_unknown(m.avg_review_latency_secs, ""@), r16);
    lemma_shows(h14, "\n  Rework Rate:     "@, or_unknown(m.rework_rate, "%"@), r15);
    let r14 = "\n  Rework Rate:     "@ + or_unknown(m.rework_rate, "%"@) + r15;
    lemma_parts(h14, "\n  Rework Rate:     "@, or_unknown(m.rework_rate, "%"@), r15);
    lemma_shows(h13, "  skipped "@, text::signed(m.post_merge_verify_skip_count as int), r14);
    let r13 = "  skipped "@ + text::signed(m.post_merge_verify_skip_count as int) + r14;
    lemma_parts(h13, "  skipped "@, text::signed(m.post_merge_verify_skip_count as int), r14);
    lemma_shows(h12, "  fail "@, text::signed(m.post_merge_verify_fail_count as int), r13);
    let r12 = "  fail "@ + text::signed(m.post_merge_verify_fail_count as int) + r13;
    lemma_parts(h12, "  fail "@, text::signed(m.post_merge_verify_fail_count as int), r13);
    lemma_shows(
        h11,
        ")\n  Post-merge Verify: pass "@,
        text::signed(m.post_merge_verify_pass_count as int),
        r12,
    );
    let r11 = ")\n  Post-merge Verify: pass "@
        + text::signed(m.post_merge_verify_pass_count as int) + r12;
    lemma_parts(
        h11,
        ")\n  Post-merge Verify: pass "@,
        text::signed(m.post_merge_verify_pass_count as int),
        r12,
    );
    lemma_shows(h10, " / rejected "@, text::signed(m.rejected_decision_count as int), r11);
    let r10 = " / rejected "@ + text::signed(m.rejected_decision_count as int) + r11;
    lemma_parts(h10, " / rejected "@, text::signed(m.rejected_decision_count as int), r11);
    lemma_shows(h9, " (accepted "@, text::signed(m.accepted_decision_count as int), r10);
    let r9 = " (accepted "@ + text::signed(m.accepted_decision_count as int) + r10;
    lemma_parts(h9, " (accepted "@, text::signed(m.accepted_decision_count as int), r10);
    lemma_shows(h8, "\n  Decision Accept Rate: "@, or_unknown(m.decision_accept_rate, "%"@), r9);
    let r8 = "\n  Decision Accept Rate: "@ + or_unknown(m.decision_accept_rate, "%"@) + r9;
    lemma_parts(h8, "\n  Decision Accept Rate: "@, or_unknown(m.decision_accept_rate, "%"@), r9);
    lemma_shows(h7, " / fail "@, text::signed(m.isolated_integration_failure_count as int), r8);
    let r7 = " / fail "@ + text::signed(m.isolated_integration_failure_count as int) + r8;
    lemma_parts(h7, " / fail "@, text::signed(m.isolated_integration_failure_count as int), r8);
    lemma_shows(h6, "  isolated ok "@, text::signed(m.isolated_integration_merge_count as int), r7);
    let r6 = "  isolated ok "@ + text::signed(m.isolated_integration_merge_count as int) + r7;
    lemma_parts(h6, "  isolated ok "@, text::signed(m.isolated_integration_merge_count as int), r7);
    lemma_shows(h5, " / fail "@, text::signed(m.direct_root_failure_count as int), r6);
    let r5 = " / fail "@ + text::signed(m.direct_root_failure_count as int) + r6;
    lemma_parts(h5, " / fail "@, text::signed(m.direct_root_failure_count as int), r6);
    lemma_shows(
        h4,
        "\n  Merge Modes: direct ok "@,
        text::signed(m.direct_root_merge_count as int),
        r5,
    );
    let r4 = "\n  Merge Modes: direct ok "@ + text::signed(m.direct_root_merge_count as int) + r5;
    lemma_parts(
        h4,
        "\n  Merge Modes: direct ok "@,
        text::signed(m.direct_root_merge_count as int),
        r5,
    );
    lemma_shows(h3, "  Rework: "@, text::signed(m.rework_count as int), r4);
    let r3 = "  Rework: "@ + text::signed(m.rework_count as int) + r4;
    lemma_parts(h3, "  Rework: "@, text::signed(m.rework_count as int), r4);
    lemma_shows(h2, "  Manual: "@, text::signed(m.manual_merge_count as int), r3);
    let r2 = "  Manual: "@ + text::signed(m.manual_merge_count as int) + r3;
    lemma_parts(h2, "  Manual: "@, text::signed(m.manual_merge_count as int), r3);
    lemma_shows(h1, "\n  Auto: "@, text::signed(m.auto_merge_count as int), r2);
    let r1 = "\n  Auto: "@ + text::signed(m.auto_merge_count as int) + r2;
    lemma_parts(h1, "\n  Auto: "@, text::signed(m.auto_merge_count as int), r2);
    lemma_shows(h0, "\n  Auto-merge Rate: "@, or_unknown(m.auto_merge_rate, "%"@), r1);
}

/// The numbers on subsystems are shown by their labels.
pub proof fn law_health_numbers_are_labelled(m: Shown)
    ensures
        ({
            let t = dashboard_text::health_text(m);
            &&& shows(t, "\n  Verification: pass "@, text::signed(m.verification_pass_count as int))
            &&& shows(t, "  fail "@, text::signed(m.verification_fail_count as int))
            &&& shows(t, "  pass-rate "@, or_unknown(m.verification_pass_rate, "%"@))
            &&& shows(t, "\n  Merge Queue Depth: "@, text::signed(m.merge_queue_depth as int))
            &&& shows(
                t,
                "\n  Notification Isolation: "@,
                text::signed(m.notification_isolation_count as int),
            )
            &&& shows(
                t,
                "\n  Notification Latency: "@,
                or_unknown(m.avg_notification_delivery_latency_secs, ""@),
            )
        }),
{
    let t = dashboard_text::health_text(m);
    let h0 = "\nSubsystem Health\n"@ + text::repeat('-', 40);
    let h1 = h0 + "\n  Verification: pass "@ + text::signed(m.verification_pass_count as int);
    let h2 = h1 + "  fail "@ + text::signed(m.verification_fail_count as int);
    let h3 = h2 + "  pass-rate "@ + or_unknown(m.verification_pass_rate, "%"@);
    let h4 = h3 + "\n  Merge Queue Depth: "@ + text::signed(m.merge_queue_depth as int);
    let h5 = h4 + "\n  Notification Isolation: "@
        + text::signed(m.notification_isolation_count as int);
    let h6 = h5 + "\n  Notification Latency: "@
        + or_unknown(m.avg_notification_delivery_latency_secs, ""@);
    let r6 = "\n"@;
    assert(t == h6 + r6);
    lemma_shows(
        h5,
        "\n  Notification Latency: "@,
        or_unknown(m.avg_notification_delivery_latency_secs, ""@),
        r6,
    );
    let r5 = "\n  Notification Latency: "@
        + or_unknown(m.avg_notification_delivery_latency_secs, ""@) + r6;
    lemma_parts(
        h5,
        "\n  Notification Latency: "@,
        or_unknown(m.avg_notification_delivery_latency_secs, ""@),
        r6,
    );
    lemma_shows(
        h4,
        "\n  Notification Isolation: "@,
        text::signed(m.notification_isolation_count as int),
        r5,
    );
    let r4 = "\n  Notification Isolation: "@
        + text::signed(m.notification_isolation_count as int) + r5;
    lemma_parts(
        h4,
        "\n  Notification Isolation: "@,
        text::signed(m.notification_isolation_count as int),
        r5,
    );
    lemma_shows(h3, "\n  Merge Queue Depth: "@, text::signed(m.merge_queue_depth as int), r4);
    let r3 = "\n  Merge Queue Depth: "@ + text::signed(m.merge_queue_depth as int) + r4;
    lemma_parts(h3, "\n  Merge Queue Depth: "@, text::signed(m.merge_queue_depth as int), r4);
    lemma_shows(h2, "  pass-rate "@, or_unknown(m.verification_pass_rate, "%"@), r3);
    let r2 = "  pass-rate "@ + or_unknown(m.verification_pass_rate, "%"@) + r3;
    lemma_parts(h2, "  pass-rate "@, or_unknown(m.verification_pass_rate, "%"@), r3);
    lemma_shows(h1, "  fail "@, text::signed(m.verification_fail_count as int), r2);
    let r1 = "  fail "@ + text::signed(m.verification_fail_count as int) + r2;
    lemma_parts(h1, "  fail "@, text::signed(m.verification_fail_count as int), r2);
    lemma_shows(h0, "\n  Verification: pass "@, text::signed(m.verification_pass_count as int), r1);
}

proof fn lemma_reasons(rows: Seq<AutoMergeReasonRow>, n: int, k: int)
    requires
        0 <= k < n <= rows.len(),
    ensures
        text::contains(
            dashboard_text::reasons_rows_text(rows, n),
            dashboard_text::reasons_row_text(rows[k]),
        ),
    decreases n,
{
    let before = dashboard_text::reasons_rows_text(rows, n - 1);
    let last = dashboard_text::reasons_row_text(rows[n - 1]);
    let none = Seq::<char>::empty();
    if k == n - 1 {
        lemma_holds(before, last, none);
        assert(before + last + none =~= before + last);
    } else {
        lemma_reasons(rows, n - 1, k);
        lemma_holds_within(none, before, last, dashboard_text::reasons_row_text(rows[k]));
        assert(none + before + last =~= before + last);
    }
}

proof fn lemma_stalls(rows: Seq<NonEngineerStallMetricRow<String>>, n: int, k: int)
    requires
        0 <= k < n <= rows.len(),
    ensures
        text::contains(
            dashboard_text::stalls_rows_text(rows, n),
            dashboard_text::stalls_row_text(rows[k]),
        ),
    decreases n,
{
    let before = dashboard_text::stalls_rows_text(rows, n - 1);
    let last = dashboard_text::stalls_row_text(rows[n - 1]);
    let none = Seq::<char>::empty();
    if k == n - 1 {
        lemma_holds(before, last, none);
        assert(before + last + none =~= before + last);
    } else {
        lemma_stalls(rows, n - 1, k);
        lemma_holds_within(none, before, last, dashboard_text::stalls_row_text(rows[k]));
        assert(none + before + last =~= before + last);
    }
}

proof fn lemma_priorities(rows: Seq<PriorityCycleTimeRow<String>>, n: int, k: int)
    requires
        0 <= k < n <= rows.len(),
    ensures
        text::contains(
            dashboard_text::priorities_rows_text(rows, n),
            dashboard_text::priorities_row_text(rows[k]),
        ),
    decreases n,
{
    let before = dashboard_text::priorities_rows_text(rows, n - 1);
    let last = dashboard_text::priorities_row_text(rows[n - 1]);
    let none = Seq::<char>::empty();
    if k == n - 1 {
        lemma_holds(before, last, none);
        assert(before + last + none =~= before + last);
    } else {
        lemma_priorities(rows, n - 1, k);
        lemma_holds_within(none, before, last, dashboard_text::priorities_row_text(rows[k]));
        assert(none + before + last =~= before + last);
    }
}

proof fn lemma_hours(rows: Seq<HourlyThroughputRow>, n: int, k: int)
    requires
        0 <= k < n <= rows.len(),
    ensures
        text::contains(
            dashboard_text::hours_rows_text(rows, n),
            dashboard_text::hours_row_text(rows[k]),
        ),
    decreases n,
{
    let before = dashboard_text::hours_rows_text(rows, n - 1);
    let last = dashboard_text::hours_row_text(rows[n - 1]);
    let none = Seq::<char>::empty();
    if k == n - 1 {
        lemma_holds(before, last, none);
        assert(before + last + none =~= before + last);
    } else {
        lemma_hours(rows, n - 1, k);
        lemma_holds_within(none, before, last, dashboard_text::hours_row_text(rows[k]));
        assert(none + before + last =~= before + last);
    }
}

proof fn lemma_ranks(rows: Seq<EngineerThroughputRow<String>>, n: int, k: int)
    requires
        0 <= k < n <= rows.len(),
    ensures
        text::contains(
            dashboard_text::ranks_rows_text(rows, n),
            dashboard_text::ranks_row_text(rows[k], k),
        ),
    decreases n,
{
    let before = dashboard_text::ranks_rows_text(rows, n - 1);
    let last = dashboard_text::ranks_row_text(rows[n - 1], n - 1);
    let none = Seq::<char>::empty();
    if k == n - 1 {
        lemma_holds(before, last, none);
        assert(before + last + none =~= before + last);
    } else {
        lemma_ranks(rows, n - 1, k);
        lemma_holds_within(none, before, last, dashboard_text::ranks_row_text(rows[k], k));
        assert(none + before + last =~= before + last);
    }
}

proof fn lemma_running(rows: Seq<InProgressTaskSummary>, n: int, k: int)
    requires
        0 <= k < n <= rows.len(),
    ensures
        text::contains(
            dashboard_text::running_rows_text(rows, n),
            dashboard_text::running_row_text(rows[k]),
        ),
    decreases n,
{
    let before = dashboard_text::running_rows_text(rows, n - 1);
    let last = dashboard_text::running_row_text(rows[n - 1]);
    let none = Seq::<char>::empty();
    if k == n - 1 {
        lemma_holds(before, last, none);
        assert(before + last + none =~= before + last);
    } else {
        lemma_running(rows, n - 1, k);
        lemma_holds_within(none, before, last, dashboard_text::running_row_text(rows[k]));
        assert(none + before + last =~= before + last);
    }
}

proof fn lemma_agents(rows: Seq<AgentRow<String>>, n: int, k: int)
    requires
        0 <= k < n <= rows.len(),
    ensures
        text::contains(
            dashboard_text::agents_rows_text(rows, n),
            dashboard_text::agents_row_text(rows[k]),
        ),
    decreases n,
{
    let before = dashboard_text::agents_rows_text(rows, n - 1);
    let last = dashboard_text::agents_row_text(rows[n - 1]);
    let none = Seq::<char>::empty();
    if k == n - 1 {
        lemma_holds(before, last, none);
        assert(before + last + none =~= before + last);
    } else {
        lemma_agents(rows, n - 1, k);
        lemma_holds_within(none, before, last, dashboard_text::agents_row_text(rows[k]));
        assert(none + before + last =~= before + last);
    }
}

/// The first five reasons for rejections are shown, each with its count.
pub proof fn law_reasons_are_listed(rows: Seq<AutoMergeReasonRow>, k: int)
    requires
        0 <= k < rows.len(),
        k < 5,
    ensures
        text::contains(dashboard_text::reasons_text(rows), "    - "@ + rows[k].reason@ + " ("@
            + text::signed(rows[k].count as int) + ")\n"@),
        dashboard_text::reasons_text(Seq::empty()).len() == 0,
{
    let n: int = if rows.len() <= 5 { rows.len() as int } else { 5 };
    let head = "  Rejection Reasons:\n"@;
    let lines = dashboard_text::reasons_rows_text(rows, n);
    let none = Seq::<char>::empty();
    lemma_reasons(rows, n, k);
    let line = dashboard_text::reasons_row_text(rows[k]);
    lemma_holds_within(head, lines, none, line);
    assert(head + lines + none =~= dashboard_text::reasons_text(rows));
    assert(line == "    - "@ + rows[k].reason@ + " ("@ + text::signed(rows[k].count as int)
        + ")\n"@);
}

/// Every stall is shown, with who stalled, where, on what, how often and how long.
pub proof fn law_stalls_are_listed(rows: Seq<NonEngineerStallMetricRow<String>>, k: int)
    requires
        0 <= k < rows.len(),
    ensures
        text::contains(dashboard_text::stalls_text(rows), "  "@
            + text::pad_right(rows[k].role@, 16) + " "@ + text::pad_right(rows[k].lane@, 9)
            + " "@ + text::pad_right(rows[k].signal@, 28) + " "@
            + text::pad_left(text::signed(rows[k].count as int), 5) + " "@
            + text::pad_left(rows[k].max_stall_secs@, 8) + "\n"@),
        dashboard_text::stalls_text(Seq::empty()).len() == 0,
{
    let n: int = rows.len() as int;
    let head = "\nNon-Engineer Stall SLOs\n"@ + text::repeat('-', 60) + "\n  "@
        + text::pad_right("ROLE"@, 16) + " "@ + text::pad_right("LANE"@, 9) + " "@
        + text::pad_right("SIGNAL"@, 28) + " "@ + text::pad_left("COUNT"@, 5) + " "@
        + text::pad_left("MAX"@, 8) + "\n"@;
    let lines = dashboard_text::stalls_rows_text(rows, n);
    let none = Seq::<char>::empty();
    lemma_stalls(rows, n, k);
    let line = dashboard_text::stalls_row_text(rows[k]);
    lemma_holds_within(head, lines, none, line);
    assert(head + lines + none =~= dashboard_text::stalls_text(rows));
    assert(line == "  "@ + text::pad_right(rows[k].role@, 16) + " "@
        + text::pad_right(rows[k].lane@, 9) + " "@ + text::pad_right(rows[k].signal@, 28) + " "@
        + text::pad_left(text::signed(rows[k].count as int), 5) + " "@
        + text::pad_left(rows[k].max_stall_secs@, 8) + "\n"@);
}

/// Every priority is shown, with its average and its number of tasks.
pub proof fn law_priorities_are_listed(rows: Seq<PriorityCycleTimeRow<String>>, k: int)
    requires
        0 <= k < rows.len(),
    ensures
        text::contains(dashboard_text::priorities_text(rows), "  "@
            + text::pad_right(rows[k].priority@, 10) + " "@
            + text::pad_left(rows[k].average_cycle_time_mins@, 8) + " min ("@
            + text::pad_left(text::signed(rows[k].completed_tasks as int), 2) + " tasks)\n"@),
        dashboard_text::priorities_text(Seq::empty()).len() == 0,
{
    let n: int = rows.len() as int;
    let head = "\nAverage Cycle Time By Priority\n"@ + text::repeat('-', 50) + "\n"@;
    let lines = dashboard_text::priorities_rows_text(rows, n);
    let none = Seq::<char>::empty();
    lemma_priorities(rows, n, k);
    let line = dashboard_text::priorities_row_text(rows[k]);
    lemma_holds_within(head, lines, none, line);
    assert(head + lines + none =~= dashboard_text::priorities_text(rows));
    assert(line == "  "@ + text::pad_right(rows[k].priority@, 10) + " "@
        + text::pad_left(rows[k].average_cycle_time_mins@, 8) + " min ("@
        + text::pad_left(text::signed(rows[k].completed_tasks as int), 2) + " tasks)\n"@);
}

/// Every hour is shown, with what was completed in it.
pub proof fn law_hours_are_listed(rows: Seq<HourlyThroughputRow>, k: int)
    requires
        0 <= k < rows.len(),
    ensures
        text::contains(dashboard_text::hours_text(rows), "  "@
            + dashboard_text::hour_text(rows[k].hour_start) + "  "@
            + text::pad_left(text::signed(rows[k].completed_tasks as int), 2) + "\n"@),
        dashboard_text::hours_text(Seq::empty()).len() == 0,
{
    let n: int = rows.len() as int;
    let head = "\nTasks Completed Per Hour (Last 24h)\n"@ + text::repeat('-', 50) + "\n"@;
    let lines = dashboard_text::hours_rows_text(rows, n);
    let none = Seq::<char>::empty();
    lemma_hours(rows, n, k);
    let line = dashboard_text::hours_row_text(rows[k]);
    lemma_holds_within(head, lines, none, line);
    assert(head + lines + none =~= dashboard_text::hours_text(rows));
    assert(line == "  "@ + dashboard_text::hour_text(rows[k].hour_start) + "  "@
        + text::pad_left(text::signed(rows[k].completed_tasks as int), 2) + "\n"@);
}

/// Every engineer is shown by rank, with what was completed and how fast.
pub proof fn law_ranks_are_listed(rows: Seq<EngineerThroughputRow<String>>, k: int)
    requires
        0 <= k < rows.len(),
    ensures
        text::contains(dashboard_text::ranks_text(rows), "  "@ + text::decimal((k + 1) as nat)
            + ". "@ + rows[k].engineer@ + "  completed="@
            + text::signed(rows[k].completed_tasks as int) + "  avg_cycle="@
            + or_unknown(rows[k].average_cycle_time_mins, "m"@) + "  avg_lead="@
            + or_unknown(rows[k].average_lead_time_mins, "m"@) + "\n"@),
        dashboard_text::ranks_text(Seq::empty()).len() == 0,
{
    let n: int = rows.len() as int;
    let head = "\nEngineer Throughput Ranking\n"@ + text::repeat('-', 60) + "\n"@;
    let lines = dashboard_text::ranks_rows_text(rows, n);
    let none = Seq::<char>::empty();
    lemma_ranks(rows, n, k);
    let line = dashboard_text::ranks_row_text(rows[k], k);
    lemma_holds_within(head, lines, none, line);
    assert(head + lines + none =~= dashboard_text::ranks_text(rows));
    assert(line == "  "@ + text::decimal((k + 1) as nat) + ". "@ + rows[k].engineer@
        + "  completed="@ + text::signed(rows[k].completed_tasks as int) + "  avg_cycle="@
        + or_unknown(rows[k].average_cycle_time_mins, "m"@) + "  avg_lead="@
        + or_unknown(rows[k].average_lead_time_mins, "m"@) + "\n"@);
}

/// Every task in progress is shown, with its owner and its age.
pub proof fn law_running_are_listed(rows: Seq<InProgressTaskSummary>, k: int)
    requires
        0 <= k < rows.len(),
    ensures
        text::contains(dashboard_text::running_text(rows), "  #"@
            + text::decimal(rows[k].task_id as nat) + " "@ + rows[k].title@ + " ["@
            + rows[k].priority@ + "] owner="@
            + (match rows[k].engineer { Some(e) => e@, None => "unassigned"@ }) + " age="@
            + text::signed(rows[k].minutes_in_progress as int) + "m\n"@),
        dashboard_text::running_text(Seq::empty()).len() == 0,
{
    let n: int = rows.len() as int;
    let head = "\nLongest-Running In-Progress Tasks\n"@ + text::repeat('-', 60) + "\n"@;
    let lines = dashboard_text::running_rows_text(rows, n);
    let none = Seq::<char>::empty();
    lemma_running(rows, n, k);
    let line = dashboard_text::running_row_text(rows[k]);
    assert(match rows[k].engineer {
        Some(e) => e@ + ""@ =~= e@,
        None => true,
    }) by {
        reveal_strlit("");
    }
    lemma_holds_within(head, lines, none, line);
    assert(head + lines + none =~= dashboard_text::running_text(rows));
    assert(line == "  #"@ + text::decimal(rows[k].task_id as nat) + " "@ + rows[k].title@ + " ["@
        + rows[k].priority@ + "] owner="@
        + (match rows[k].engineer { Some(e) => e@, None => "unassigned"@ }) + " age="@
        + text::signed(rows[k].minutes_in_progress as int) + "m\n"@);
}

/// Every agent is shown, with what it completed, failed and restarted.
pub proof fn law_agents_are_listed(rows: Seq<AgentRow<String>>, k: int)
    requires
        0 <= k < rows.len(),
    ensures
        text::contains(dashboard_text::agents_text(rows), "  "@
            + text::pad_right(rows[k].role@, 16) + " "@
            + text::pad_left(text::signed(rows[k].completions as int), 6) + " "@
            + text::pad_left(text::signed(rows[k].failures as int), 6) + " "@
            + text::pad_left(text::signed(rows[k].restarts as int), 6) + " "@
            + text::pad_left(text::signed(rows[k].total_cycle_secs as int), 10) + " "@
            + text::pad_left(match rows[k].idle_pct { Some(p) => p@ + "%"@, None => "-"@ }, 8)
            + "\n"@),
        dashboard_text::agents_text(Seq::empty()).len() == 0,
{
    let n: int = rows.len() as int;
    let head = "\nPer-Agent Breakdown\n"@ + text::repeat('-', 60) + "\n  "@
        + text::pad_right("ROLE"@, 16) + " "@ + text::pad_left("DONE"@, 6) + " "@
        + text::pad_left("FAIL"@, 6) + " "@ + text::pad_left("RESTART"@, 6) + " "@
        + text::pad_left("CYCLE_S"@, 10) + " "@ + text::pad_left("IDLE%"@, 8) + "\n"@;
    let lines = dashboard_text::agents_rows_text(rows, n);
    let none = Seq::<char>::empty();
    lemma_agents(rows, n, k);
    let line = dashboard_text::agents_row_text(rows[k]);
    lemma_holds_within(head, lines, none, line);
    assert(head + lines + none =~= dashboard_text::agents_text(rows));
    assert(line == "  "@ + text::pad_right(rows[k].role@, 16) + " "@
        + text::pad_left(text::signed(rows[k].completions as int), 6) + " "@
        + text::pad_left(text::signed(rows[k].failures as int), 6) + " "@
        + text::pad_left(text::signed(rows[k].restarts as int), 6) + " "@
        + text::pad_left(text::signed(rows[k].total_cycle_secs as int), 10) + " "@
        + text::pad_left(match rows[k].idle_pct { Some(p) => p@ + "%"@, None => "-"@ }, 8) + "\n"@);
}

proof fn lemma_within(head: Seq<char>, part: Seq<char>, rest: Seq<char>, needle: Seq<char>)
    ensures
        text::contains(part, needle) ==> text::contains(head + part + rest, needle),
{
    if text::contains(part, needle) {
        lemma_holds_within(head, part, rest, needle);
    }
}

/// A dashboard shows all of its sections and tables, in one order.
pub proof fn law_dashboards_show_all(m: Shown, needle: Seq<char>)
    ensures
        ({
            let d = dashboard_text::dashboard_text(m);
            let t = |s: Seq<char>| text::contains(s, needle) ==> text::contains(d, needle);
            &&& t(dashboard_text::totals_text(m))
            &&& t(dashboard_text::cycles_text(m))
            &&& t(dashboard_text::rates_text(m))
            &&& t(dashboard_text::review_text(m))
            &&& t(dashboard_text::health_text(m))
            &&& t(dashboard_text::reasons_text(m.rejection_reasons@))
            &&& t(dashboard_text::stalls_text(m.non_engineer_stalls@))
            &&& t(dashboard_text::priorities_text(m.cycle_time_by_priority@))
            &&& t(dashboard_text::hours_text(m.tasks_completed_per_hour@))
            &&& t(dashboard_text::ranks_text(m.engineer_throughput@))
            &&& t(dashboard_text::running_text(m.longest_running_tasks@))
            &&& t(dashboard_text::agents_text(m.agent_rows@))
            &&& t(dashboard_text::release_text(m.latest_release))
        }),
{
    let d = dashboard_text::dashboard_text(m);
    let s0 = dashboard_text::totals_text(m);
    let s1 = dashboard_text::cycles_text(m);
    let s2 = dashboard_text::rates_text(m);
    let s3 = dashboard_text::review_text(m);
    let s4 = dashboard_text::reasons_text(m.rejection_reasons@);
    let s5 = dashboard_text::health_text(m);
    let s6 = dashboard_text::stalls_text(m.non_engineer_stalls@);
    let s7 = dashboard_text::priorities_text(m.cycle_time_by_priority@);
    let s8 = dashboard_text::hours_text(m.tasks_completed_per_hour@);
    let s9 = dashboard_text::ranks_text(m.engineer_throughput@);
    let s10 = dashboard_text::running_text(m.longest_running_tasks@);
    let s11 = dashboard_text::release_text(m.latest_release);
    let s12 = dashboard_text::agents_text(m.agent_rows@);
    let h0 = Seq::<char>::empty();
    let h1 = s0;
    let h2 = h1 + s1;
    let h3 = h2 + s2;
    let h4 = h3 + s3;
    let h5 = h4 + s4;
    let h6 = h5 + s5;
    let h7 = h6 + s6;
    let h8 = h7 + s7;
    let h9 = h8 + s8;
    let h10 = h9 + s9;
    let h11 = h10 + s10;
    let h12 = h11 + s11;
    let h13 = h12 + s12;
    let r13 = Seq::<char>::empty();
    assert(d == h13);
    assert(h13 + r13 =~= h13);
    let r12 = s12 + r13;
    lemma_two_parts(h12, s12, r13);
    lemma_within(h12, s12, r13, needle);
    let r11 = s11 + r12;
    lemma_two_parts(h11, s11, r12);
    lemma_within(h11, s11, r12, needle);
    let r10 = s10 + r11;
    lemma_two_parts(h10, s10, r11);
    lemma_within(h10, s10, r11, needle);
    let r9 = s9 + r10;
    lemma_two_parts(h9, s9, r10);
    lemma_within(h9, s9, r10, needle);
    let r8 = s8 + r9;
    lemma_two_parts(h8, s8, r9);
    lemma_within(h8, s8, r9, needle);
    let r7 = s7 + r8;
    lemma_two_parts(h7, s7, r8);
    lemma_within(h7, s7, r8, needle);
    let r6 = s6 + r7;
    lemma_two_parts(h6, s6, r7);
    lemma_within(h6, s6, r7, needle);
    let r5 = s5 + r6;
    lemma_two_parts(h5, s5, r6);
    lemma_within(h5, s5, r6, needle);
    let r4 = s4 + r5;
    lemma_two_parts(h4, s4, r5);
    lemma_within(h4, s4, r5, needle);
    let r3 = s3 + r4;
    lemma_two_parts(h3, s3, r4);
    lemma_within(h3, s3, r4, needle);
    let r2 = s2 + r3;
    lemma_two_parts(h2, s2, r3);
    lemma_within(h2, s2, r3, needle);
    let r1 = s1 + r2;
    lemma_two_parts(h1, s1, r2);
    lemma_within(h1, s1, r2, needle);
    assert(h0 + s0 + r1 =~= s0 + r1);
    lemma_within(h0, s0, r1, needle);
}

} // verus!
