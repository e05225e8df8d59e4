use batty_team::dashboard::{
    query_dashboard, AgentMetricsRow, AgentRow, AutoMergeReasonRow, DashboardMetrics,
    EngineerThroughputRow, HourlyThroughputRow, NonEngineerStallMetricRow, PriorityCycleTimeRow,
    ReleaseRecord, ReviewMetricsRow, SessionSummaryRow, TaskTimesRow, TelemetryRows,
};
use batty_team::dashboard_text::{format_dashboard, labelled_hour, no_telemetry};
use batty_team::metrics::InProgressTaskSummary;

fn mean(sum: i64, count: i64) -> f64 {
    sum as f64 / count as f64
}

fn percent(part: i64, whole: i64) -> f64 {
    part as f64 / whole as f64 * 100.0
}

fn session(tasks_completed: i64, total_merges: i64, total_events: i64) -> SessionSummaryRow {
    SessionSummaryRow {
        tasks_completed,
        total_merges,
        total_events,
        discord_events_sent: 0,
        verification_passes: 0,
        verification_failures: 0,
        notification_isolations: 0,
        notification_latency_total_secs: 0,
        notification_latency_samples: 0,
    }
}

fn agent(role: &str, completions: i64, failures: i64) -> AgentMetricsRow {
    AgentMetricsRow {
        role: role.to_string(),
        completions,
        failures,
        restarts: 0,
        total_cycle_secs: 0,
        idle_polls: 0,
        working_polls: 0,
    }
}

fn times(started_at: i64, completed_at: i64) -> TaskTimesRow {
    TaskTimesRow {
        started_at: Some(started_at),
        completed_at: Some(completed_at),
    }
}

fn no_reviews() -> ReviewMetricsRow<f64> {
    ReviewMetricsRow {
        auto_merge_count: 0,
        manual_merge_count: 0,
        direct_root_merge_count: 0,
        isolated_integration_merge_count: 0,
        direct_root_failure_count: 0,
        isolated_integration_failure_count: 0,
        rework_count: 0,
        avg_review_latency_secs: None,
        accepted_decision_count: 0,
        rejected_decision_count: 0,
        rejection_reasons: vec![],
        post_merge_verify_pass_count: 0,
        post_merge_verify_fail_count: 0,
        post_merge_verify_skip_count: 0,
    }
}

fn empty_rows() -> TelemetryRows<f64> {
    TelemetryRows {
        sessions: vec![],
        agents: vec![],
        tasks: vec![],
        review: no_reviews(),
        merge_queue_depth: 0,
        non_engineer_stalls: vec![],
        cycle_time_by_priority: vec![],
        engineer_throughput: vec![],
        has_cycle_times: false,
        hourly: vec![],
    }
}

fn query(rows: TelemetryRows<f64>) -> DashboardMetrics<f64, i64> {
    query_dashboard(rows, &mean, &percent)
}

#[test]
fn metrics_with_data() {
    let m = query(TelemetryRows {
        sessions: vec![session(2, 2, 12)],
        agents: vec![agent("eng-1", 1, 1), agent("eng-2", 1, 0)],
        tasks: vec![
            times(1100, 1400),
            times(1200, 1700),
            TaskTimesRow { started_at: None, completed_at: None },
        ],
        review: ReviewMetricsRow {
            auto_merge_count: 1,
            manual_merge_count: 1,
            direct_root_merge_count: 2,
            isolated_integration_failure_count: 1,
            accepted_decision_count: 1,
            rejected_decision_count: 1,
            rejection_reasons: vec![AutoMergeReasonRow {
                reason: "touches sensitive paths".to_string(),
                count: 1,
            }],
            post_merge_verify_pass_count: 1,
            post_merge_verify_skip_count: 1,
            ..no_reviews()
        },
        non_engineer_stalls: vec![NonEngineerStallMetricRow {
            role: "manager".to_string(),
            lane: "manager".to_string(),
            signal: "dispatch_gap_pressure".to_string(),
            count: 1,
            max_stall_secs: 600,
        }],
        ..empty_rows()
    });

    assert_eq!(m.sessions_count, 1);
    assert_eq!(m.total_tasks_completed, 2);
    assert_eq!(m.total_merges, 2);
    assert!(m.total_events > 0);

    // Cycle times: 300s and 500s → avg 400
    let avg = m.avg_cycle_time_secs.unwrap();
    assert!((avg - 400.0).abs() < 0.01);
    assert_eq!(m.min_cycle_time_secs, Some(300));
    assert_eq!(m.max_cycle_time_secs, Some(500));

    // Completion rate: 2 completions, 1 failure → 2/3 ≈ 66.7%
    let cr = m.completion_rate.unwrap();
    assert!((cr - 66.67).abs() < 1.0);

    // Failure rate: 1/3 ≈ 33.3%
    let fr = m.failure_rate.unwrap();
    assert!((fr - 33.33).abs() < 1.0);

    // Merge success rate: 2 merges / 2 completed → 100%
    let mr = m.merge_success_rate.unwrap();
    assert!((mr - 100.0).abs() < 0.01);

    // Review pipeline
    assert_eq!(m.auto_merge_count, 1);
    assert_eq!(m.manual_merge_count, 1);
    assert_eq!(m.direct_root_merge_count, 2);
    assert_eq!(m.isolated_integration_merge_count, 0);
    assert_eq!(m.direct_root_failure_count, 0);
    assert_eq!(m.isolated_integration_failure_count, 1);
    let amr = m.auto_merge_rate.unwrap();
    assert!((amr - 50.0).abs() < 0.01);
    assert_eq!(m.accepted_decision_count, 1);
    assert_eq!(m.rejected_decision_count, 1);
    let dar = m.decision_accept_rate.unwrap();
    assert!((dar - 50.0).abs() < 0.01);
    assert_eq!(m.post_merge_verify_pass_count, 1);
    assert_eq!(m.post_merge_verify_fail_count, 0);
    assert_eq!(m.post_merge_verify_skip_count, 1);
    assert_eq!(m.rejection_reasons.len(), 1);
    assert_eq!(m.rejection_reasons[0].reason, "touches sensitive paths");
    assert_eq!(m.rejection_reasons[0].count, 1);

    // Agents present
    assert_eq!(m.agent_rows.len(), 2);
    assert_eq!(m.non_engineer_stalls.len(), 1);
    assert_eq!(m.non_engineer_stalls[0].role, "manager");
    assert_eq!(m.non_engineer_stalls[0].signal, "dispatch_gap_pressure");
}

#[test]
fn empty_db() {
    let m = query(empty_rows());

    assert_eq!(m, DashboardMetrics::default());
    assert_eq!(m.sessions_count, 0);
    assert_eq!(m.total_tasks_completed, 0);
    assert!(m.avg_cycle_time_secs.is_none());
    assert!(m.completion_rate.is_none());
    assert!(m.failure_rate.is_none());
    assert!(m.merge_success_rate.is_none());
}

#[test]
fn query_dashboard_reads_repaired_legacy_schema_rows() {
    let metrics = query(TelemetryRows {
        sessions: vec![session(2, 1, 5)],
        tasks: vec![times(100, 160)],
        ..empty_rows()
    });

    assert_eq!(metrics.sessions_count, 1);
    assert_eq!(metrics.total_tasks_completed, 2);
    assert_eq!(metrics.total_merges, 1);
    assert_eq!(metrics.total_events, 5);
    assert_eq!(metrics.verification_pass_count, 0);
    assert_eq!(metrics.notification_isolation_count, 0);
    assert_eq!(metrics.avg_cycle_time_secs, Some(60.0));
}

#[test]
fn missing_db_shows_message() {
    let text = no_telemetry();
    assert_eq!(
        text,
        format!(
            "Telemetry Dashboard\n{}\n\nNo telemetry database found. \
             Run `batty start` to begin collecting data.\n",
            "=".repeat(60)
        )
    );
}

#[test]
fn rate_calculations() {
    // 3 completions, 1 failure
    let m = query(TelemetryRows {
        sessions: vec![session(3, 3, 11)],
        agents: vec![agent("eng-1", 3, 1)],
        tasks: vec![times(300, 360), times(400, 460), times(500, 560)],
        review: ReviewMetricsRow {
            auto_merge_count: 3,
            direct_root_merge_count: 3,
            ..no_reviews()
        },
        ..empty_rows()
    });

    // completion_rate: 3 / (3+1) = 75%
    let cr = m.completion_rate.unwrap();
    assert!((cr - 75.0).abs() < 0.01);

    // failure_rate: 1 / (3+1) = 25%
    let fr = m.failure_rate.unwrap();
    assert!((fr - 25.0).abs() < 0.01);

    // merge_success_rate: 3 merges / 3 completed = 100%
    let mr = m.merge_success_rate.unwrap();
    assert!((mr - 100.0).abs() < 0.01);

    // auto_merge_rate: 3 auto / (3+0) = 100%
    let amr = m.auto_merge_rate.unwrap();
    assert!((amr - 100.0).abs() < 0.01);

    // cycle times: each task has 60s cycle → avg 60
    let avg = m.avg_cycle_time_secs.unwrap();
    assert!((avg - 60.0).abs() < 0.01);
}

#[test]
fn format_dashboard_renders_sections() {
    let m: DashboardMetrics<String, String> = DashboardMetrics {
        sessions_count: 2,
        total_tasks_completed: 10,
        total_merges: 8,
        total_events: 50,
        discord_events_sent: 4,
        verification_pass_count: 5,
        verification_fail_count: 1,
        verification_pass_rate: Some("83".to_string()),
        notification_isolation_count: 3,
        avg_notification_delivery_latency_secs: Some("12s".to_string()),
        merge_queue_depth: 2,
        non_engineer_stalls: vec![NonEngineerStallMetricRow {
            role: "manager".to_string(),
            lane: "manager".to_string(),
            signal: "dispatch_gap_pressure".to_string(),
            count: 2,
            max_stall_secs: "10m 0s".to_string(),
        }],
        latest_release: Some(ReleaseRecord {
            tag: Some("v0.10.0".to_string()),
            git_ref: Some("abc123".to_string()),
            success: true,
            reason: "created annotated tag `v0.10.0`".to_string(),
            details: None,
        }),
        avg_cycle_time_secs: Some("5m 0s".to_string()),
        min_cycle_time_secs: Some("1m 0s".to_string()),
        max_cycle_time_secs: Some("15m 0s".to_string()),
        completion_rate: Some("90".to_string()),
        failure_rate: Some("10".to_string()),
        merge_success_rate: Some("80".to_string()),
        auto_merge_count: 6,
        manual_merge_count: 2,
        direct_root_merge_count: 5,
        isolated_integration_merge_count: 3,
        direct_root_failure_count: 1,
        isolated_integration_failure_count: 2,
        auto_merge_rate: Some("75".to_string()),
        accepted_decision_count: 6,
        rejected_decision_count: 2,
        decision_accept_rate: Some("75".to_string()),
        rejection_reasons: vec![AutoMergeReasonRow {
            reason: "needs-human-review".to_string(),
            count: 2,
        }],
        post_merge_verify_pass_count: 5,
        post_merge_verify_fail_count: 1,
        post_merge_verify_skip_count: 2,
        rework_count: 1,
        rework_rate: Some("11".to_string()),
        avg_review_latency_secs: Some("2m 0s".to_string()),
        cycle_time_by_priority: vec![PriorityCycleTimeRow {
            priority: "high".to_string(),
            average_cycle_time_mins: "42.0".to_string(),
            completed_tasks: 3,
        }],
        engineer_throughput: vec![EngineerThroughputRow {
            engineer: "eng-1".to_string(),
            completed_tasks: 5,
            average_cycle_time_mins: Some("42.0".to_string()),
            average_lead_time_mins: Some("60.0".to_string()),
        }],
        tasks_completed_per_hour: vec![HourlyThroughputRow {
            hour_start: 1_744_000_000,
            completed_tasks: 2,
        }],
        longest_running_tasks: vec![InProgressTaskSummary {
            task_id: 473,
            title: "Track cycle time".to_string(),
            engineer: Some("eng-1".to_string()),
            priority: "high".to_string(),
            minutes_in_progress: 95,
        }],
        agent_rows: vec![AgentRow {
            role: "eng-1".to_string(),
            completions: 5,
            failures: 1,
            restarts: 0,
            total_cycle_secs: 1500,
            idle_pct: Some("20".to_string()),
        }],
    };

    let text = format_dashboard(&m);

    assert!(text.contains("Telemetry Dashboard"));
    assert!(text.contains("Session Totals"));
    assert!(text.contains("Sessions:        2"));
    assert!(text.contains("Tasks Completed: 10"));
    assert!(text.contains("Total Merges:    8"));
    assert!(text.contains("Discord Events:  4"));

    assert!(text.contains("Cycle Time"));
    assert!(text.contains("Average: 5m 0s"));
    assert!(text.contains("Min:     1m 0s"));
    assert!(text.contains("Max:     15m 0s"));

    assert!(text.contains("Rates"));
    assert!(text.contains("Completion Rate:    90%"));
    assert!(text.contains("Failure Rate:       10%"));
    assert!(text.contains("Merge Success Rate: 80%"));

    assert!(text.contains("Review Pipeline"));
    assert!(text.contains("Auto-merge Rate: 75%"));
    assert!(text.contains("Merge Modes: direct ok 5 / fail 1  isolated ok 3 / fail 2"));
    assert!(text.contains("Decision Accept Rate: 75%"));
    assert!(text.contains("Post-merge Verify: pass 5  fail 1  skipped 2"));
    assert!(text.contains("needs-human-review"));
    assert!(text.contains("Rework Rate:     11%"));

    assert!(text.contains("Average Cycle Time By Priority"));
    assert!(text.contains("Engineer Throughput Ranking"));
    assert!(text.contains("Longest-Running In-Progress Tasks"));
    assert!(text.contains("Subsystem Health"));
    assert!(text.contains("Verification: pass 5  fail 1"));
    assert!(text.contains("Merge Queue Depth: 2"));
    assert!(text.contains("Notification Isolation: 3"));
    assert!(text.contains("Notification Latency: 12s"));
    assert!(text.contains("Non-Engineer Stall SLOs"));
    assert!(text.contains("dispatch_gap_pressure"));
    assert!(text.contains("Latest Release"));
    assert!(text.contains("v0.10.0 abc123 (success)"));

    assert!(text.contains("Per-Agent Breakdown"));
    assert!(text.contains("eng-1"));
}

#[test]
fn format_dashboard_empty_shows_na() {
    let m: DashboardMetrics<String, String> = DashboardMetrics::default();
    let text = format_dashboard(&m);

    assert!(text.contains("n/a"));
    assert!(text.contains("Sessions:        0"));
    // No agent table when empty
    assert!(!text.contains("Per-Agent Breakdown"));
}

#[test]
fn sessions_and_agents_are_summed() {
    let m = query(TelemetryRows {
        sessions: vec![
            SessionSummaryRow {
                discord_events_sent: 1,
                verification_passes: 3,
                verification_failures: 1,
                notification_isolations: 2,
                notification_latency_total_secs: 30,
                notification_latency_samples: 4,
                ..session(1, 2, 3)
            },
            SessionSummaryRow {
                discord_events_sent: 4,
                ..session(10, 20, 30)
            },
        ],
        agents: vec![AgentMetricsRow {
            restarts: 7,
            total_cycle_secs: 8,
            idle_polls: 1,
            working_polls: 3,
            ..agent("eng-1", 0, 0)
        }],
        review: ReviewMetricsRow {
            auto_merge_count: 2,
            manual_merge_count: 1,
            rework_count: 1,
            avg_review_latency_secs: Some(12.5),
            ..no_reviews()
        },
        merge_queue_depth: 9,
        ..empty_rows()
    });
    assert_eq!(m.sessions_count, 2);
    assert_eq!(
        (m.total_tasks_completed, m.total_merges, m.total_events, m.discord_events_sent),
        (11, 22, 33, 5)
    );
    assert_eq!(m.verification_pass_rate, Some(75.0));
    assert_eq!(m.notification_isolation_count, 2);
    assert_eq!(m.avg_notification_delivery_latency_secs, Some(7.5));
    assert_eq!(m.agent_rows[0].idle_pct, Some(25.0));
    assert_eq!((m.agent_rows[0].restarts, m.agent_rows[0].total_cycle_secs), (7, 8));
    assert_eq!(m.completion_rate, None);
    assert_eq!(m.merge_success_rate, Some(200.0));
    assert_eq!(m.rework_rate, Some(25.0));
    assert_eq!(m.avg_review_latency_secs, Some(12.5));
    assert_eq!(m.merge_queue_depth, 9);
}

#[test]
fn hours_are_shown_only_with_cycle_times() {
    let hourly = || vec![HourlyThroughputRow { hour_start: 0, completed_tasks: 1 }];
    let without = query(TelemetryRows { hourly: hourly(), ..empty_rows() });
    assert!(without.tasks_completed_per_hour.is_empty());
    let with = query(TelemetryRows {
        hourly: hourly(),
        has_cycle_times: true,
        ..empty_rows()
    });
    assert_eq!(with.tasks_completed_per_hour.len(), 1);
}

#[test]
fn times_that_do_not_advance_are_no_cycle_times() {
    let m = query(TelemetryRows {
        tasks: vec![times(100, 100), times(200, 100), times(100, 103)],
        ..empty_rows()
    });
    assert_eq!(m.avg_cycle_time_secs, Some(3.0));
    assert_eq!((m.min_cycle_time_secs, m.max_cycle_time_secs), (Some(3), Some(3)));
}

#[test]
fn tables_are_aligned() {
    let mut m: DashboardMetrics<String, String> = DashboardMetrics::default();
    m.agent_rows = vec![AgentRow {
        role: "eng-1".to_string(),
        completions: 5,
        failures: 1,
        restarts: 0,
        total_cycle_secs: 1500,
        idle_pct: None,
    }];
    m.cycle_time_by_priority = vec![PriorityCycleTimeRow {
        priority: "high".to_string(),
        average_cycle_time_mins: "42.0".to_string(),
        completed_tasks: 3,
    }];
    m.tasks_completed_per_hour = vec![HourlyThroughputRow {
        hour_start: 1_744_000_000,
        completed_tasks: 2,
    }];
    m.non_engineer_stalls = vec![NonEngineerStallMetricRow {
        role: "manager".to_string(),
        lane: "manager".to_string(),
        signal: "dispatch_gap_pressure".to_string(),
        count: 2,
        max_stall_secs: "10m 0s".to_string(),
    }];
    let text = format_dashboard(&m);
    let row = format!("  {:<16} {:>6} {:>6} {:>6} {:>10} {:>8}\n", "eng-1", 5, 1, 0, 1500, "-");
    assert!(text.ends_with(&row));
    assert!(text.contains(&format!("  {:<10} {:>8.1} min ({:>2} tasks)\n", "high", 42.0, 3)));
    assert!(text.contains("  04-07 04:00   2\n"));
    assert!(text.contains(&format!(
        "  {:<16} {:<9} {:<28} {:>5} {:>8}\n",
        "manager", "manager", "dispatch_gap_pressure", 2, "10m 0s"
    )));
}

#[test]
fn only_five_rejection_reasons_are_shown() {
    let mut m: DashboardMetrics<String, String> = DashboardMetrics::default();
    m.rejection_reasons = (1..8)
        .map(|count| AutoMergeReasonRow { reason: format!("reason {count}"), count })
        .collect();
    let text = format_dashboard(&m);
    assert!(text.contains("  Rejection Reasons:\n    - reason 1 (1)\n"));
    assert!(text.contains("    - reason 5 (5)\n"));
    assert!(!text.contains("reason 6"));
}

#[test]
fn releases_and_running_tasks_have_defaults() {
    let mut m: DashboardMetrics<String, String> = DashboardMetrics::default();
    m.latest_release = Some(ReleaseRecord {
        success: false,
        tag: None,
        git_ref: None,
        reason: "no tag".to_string(),
        details: Some("more".to_string()),
    });
    m.longest_running_tasks = vec![InProgressTaskSummary {
        task_id: 7,
        title: "Seven".to_string(),
        engineer: None,
        priority: "low".to_string(),
        minutes_in_progress: 3,
    }];
    m.engineer_throughput = vec![EngineerThroughputRow {
        engineer: "eng-1".to_string(),
        completed_tasks: 5,
        average_cycle_time_mins: Some("4.0".to_string()),
        average_lead_time_mins: None,
    }];
    let text = format_dashboard(&m);
    assert!(text.contains("  unversioned unknown-ref (failure)\n  Reason: no tag\n  Details: more\n"));
    assert!(text.contains("  #7 Seven [low] owner=unassigned age=3m\n"));
    assert!(text.contains("  1. eng-1  completed=5  avg_cycle=4.0m  avg_lead=n/a\n"));
}

#[test]
fn hours_without_a_label_show_their_second() {
    assert_eq!(labelled_hour(None, -7200), "-7200");
    assert_eq!(labelled_hour(Some("04-07 04:00".to_string()), 0), "04-07 04:00");
    let mut m: DashboardMetrics<String, String> = DashboardMetrics::default();
    m.tasks_completed_per_hour = vec![HourlyThroughputRow {
        hour_start: i64::MAX,
        completed_tasks: 1,
    }];
    assert!(format_dashboard(&m).contains("  9223372036854775807   1\n"));
}
