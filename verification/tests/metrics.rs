use batty_team::metrics::{
    average_cycle_time_by_priority, build_task_cycle_time_record, collect_task_cycle_time_records,
    duration_minutes, minutes_of, normalized_priority, task_data_dirs, BoardTask, Moment,
    TaskCycleTimeRecord,
};
use batty_team::throughput::{
    engineer_throughput_ranking, longest_running_in_progress_tasks, tasks_completed_per_hour,
};
use chrono::{DateTime, FixedOffset, TimeZone};

fn moment(time: DateTime<FixedOffset>) -> Moment {
    Moment {
        secs: time.timestamp(),
        nanos: time.timestamp_subsec_nanos(),
    }
}

fn mean(sum: i64, count: usize) -> f64 {
    sum as f64 / count as f64
}

fn record(task_id: u32, status: &str, started_at: Option<i64>, completed_at: Option<i64>) -> TaskCycleTimeRecord {
    TaskCycleTimeRecord {
        task_id,
        title: format!("Task {task_id}"),
        engineer: Some("eng-1".to_string()),
        priority: " High ".to_string(),
        status: status.to_string(),
        created_at: None,
        started_at,
        completed_at,
        cycle_time_minutes: None,
        lead_time_minutes: None,
    }
}

#[test]
fn compute_cycle_time_from_mock_timestamps() {
    let offset = FixedOffset::west_opt(4 * 3600).unwrap();
    let created_at = offset.with_ymd_and_hms(2026, 4, 5, 10, 0, 0).unwrap();
    let started_at = offset.with_ymd_and_hms(2026, 4, 5, 11, 0, 0).unwrap();
    let completed_at = offset.with_ymd_and_hms(2026, 4, 5, 13, 30, 0).unwrap();

    let record = build_task_cycle_time_record(
        473,
        "Track cycle time",
        &Some("eng-1-3".to_string()),
        "high",
        "done",
        &Some(moment(created_at)),
        &Some(moment(started_at)),
        &Some(moment(completed_at)),
    );

    assert_eq!(record.cycle_time_minutes, Some(150));
}

#[test]
fn compute_lead_time_from_mock_timestamps() {
    let offset = FixedOffset::west_opt(4 * 3600).unwrap();
    let created_at = offset.with_ymd_and_hms(2026, 4, 5, 9, 0, 0).unwrap();
    let started_at = offset.with_ymd_and_hms(2026, 4, 5, 11, 0, 0).unwrap();
    let completed_at = offset.with_ymd_and_hms(2026, 4, 5, 13, 30, 0).unwrap();

    let record = build_task_cycle_time_record(
        474,
        "Track lead time",
        &Some("eng-1-4".to_string()),
        "medium",
        "done",
        &Some(moment(created_at)),
        &Some(moment(started_at)),
        &Some(moment(completed_at)),
    );

    assert_eq!(record.lead_time_minutes, Some(270));
}

#[test]
fn cycle_time_metrics_aggregation_groups_priority_and_engineer() {
    let records = vec![
        TaskCycleTimeRecord {
            task_id: 1,
            title: "One".to_string(),
            engineer: Some("eng-1".to_string()),
            priority: "high".to_string(),
            status: "done".to_string(),
            created_at: Some(100),
            started_at: Some(160),
            completed_at: Some(460),
            cycle_time_minutes: Some(5),
            lead_time_minutes: Some(6),
        },
        TaskCycleTimeRecord {
            task_id: 2,
            title: "Two".to_string(),
            engineer: Some("eng-1".to_string()),
            priority: "high".to_string(),
            status: "done".to_string(),
            created_at: Some(200),
            started_at: Some(260),
            completed_at: Some(860),
            cycle_time_minutes: Some(10),
            lead_time_minutes: Some(11),
        },
        TaskCycleTimeRecord {
            task_id: 3,
            title: "Three".to_string(),
            engineer: Some("eng-2".to_string()),
            priority: "low".to_string(),
            status: "done".to_string(),
            created_at: Some(300),
            started_at: Some(360),
            completed_at: Some(540),
            cycle_time_minutes: Some(3),
            lead_time_minutes: Some(4),
        },
    ];

    let by_priority = average_cycle_time_by_priority(&records, &mean);
    assert_eq!(by_priority.len(), 2);
    assert_eq!(by_priority[0].priority, "high");
    assert!((by_priority[0].average_cycle_time_minutes - 7.5).abs() < f64::EPSILON);

    let by_engineer = engineer_throughput_ranking(&records, &mean);
    assert_eq!(by_engineer[0].engineer, "eng-1");
    assert_eq!(by_engineer[0].completed_tasks, 2);
    assert!((by_engineer[0].average_cycle_time_minutes.unwrap() - 7.5).abs() < f64::EPSILON);
}

#[test]
fn cycle_time_edge_cases_handle_missing_started_and_created() {
    let no_started = TaskCycleTimeRecord {
        task_id: 10,
        title: "No started".to_string(),
        engineer: Some("eng-1".to_string()),
        priority: "medium".to_string(),
        status: "done".to_string(),
        created_at: Some(100),
        started_at: None,
        completed_at: Some(400),
        cycle_time_minutes: None,
        lead_time_minutes: Some(5),
    };
    let no_created = TaskCycleTimeRecord {
        task_id: 11,
        title: "No created".to_string(),
        engineer: Some("eng-2".to_string()),
        priority: "medium".to_string(),
        status: "done".to_string(),
        created_at: None,
        started_at: Some(100),
        completed_at: Some(400),
        cycle_time_minutes: Some(5),
        lead_time_minutes: None,
    };

    let now = Moment { secs: 7200, nanos: 0 };
    let in_progress = longest_running_in_progress_tasks(
        &vec![TaskCycleTimeRecord {
            task_id: 12,
            title: "Active".to_string(),
            engineer: Some("eng-3".to_string()),
            priority: "high".to_string(),
            status: "in-progress".to_string(),
            created_at: Some(100),
            started_at: Some(3600),
            completed_at: None,
            cycle_time_minutes: None,
            lead_time_minutes: None,
        }],
        &now,
        5,
    );

    assert!(no_started.cycle_time_minutes.is_none());
    assert!(no_created.lead_time_minutes.is_none());
    assert_eq!(in_progress[0].minutes_in_progress, 60);
}

#[test]
fn minutes_are_whole_and_not_negative() {
    let at = |secs: i64, nanos: u32| Some(Moment { secs, nanos });
    assert_eq!(duration_minutes(&at(0, 0), &at(59, 999_999_999)), Some(0));
    assert_eq!(duration_minutes(&at(0, 0), &at(60, 0)), Some(1));
    assert_eq!(duration_minutes(&at(0, 1), &at(60, 0)), Some(0));
    assert_eq!(duration_minutes(&at(60, 0), &at(0, 0)), None);
    assert_eq!(duration_minutes(&at(0, 1), &at(0, 0)), None);
    assert_eq!(duration_minutes(&at(5, 0), &at(5, 0)), Some(0));
    assert_eq!(duration_minutes(&None, &at(0, 0)), None);
    assert_eq!(duration_minutes(&at(0, 0), &None), None);
    assert_eq!(minutes_of(None), None);
    assert_eq!(minutes_of(Some((150, 0))), Some(2));
}

#[test]
fn priorities_are_normalized() {
    assert_eq!(normalized_priority("  HIGH "), "high");
    assert_eq!(normalized_priority(" \t"), "unspecified");
    assert_eq!(normalized_priority("ÄRGER"), "ärger");
}

#[test]
fn only_existing_board_directories_are_read() {
    assert_eq!(task_data_dirs("/b", true, true), vec!["/b/tasks", "/b/archive"]);
    assert_eq!(task_data_dirs("/b", false, true), vec!["/b/archive"]);
    assert!(task_data_dirs("/b", false, false).is_empty());
}

#[test]
fn records_are_collected_by_task_id() {
    let task = |id: u32, priority: &str| BoardTask {
        id,
        title: format!("Task {id}"),
        claimed_by: None,
        priority: priority.to_string(),
        status: "done".to_string(),
        created: Some(Moment { secs: 0, nanos: 0 }),
        started: None,
        completed: Some(Moment { secs: 600, nanos: 0 }),
    };
    let records = collect_task_cycle_time_records(&vec![task(9, ""), task(3, "Low"), task(9, "b")]);
    let ids: Vec<u32> = records.iter().map(|r| r.task_id).collect();
    assert_eq!(ids, vec![3, 9, 9]);
    assert_eq!(records[0].priority, "low");
    assert_eq!(records[1].priority, "unspecified");
    assert_eq!(records[2].priority, "b");
    assert_eq!(records[0].lead_time_minutes, Some(10));
    assert_eq!(records[0].cycle_time_minutes, None);
    assert_eq!(records[0].created_at, Some(0));
}

#[test]
fn priorities_are_averaged_in_order() {
    let timed = |id: u32, priority: &str, minutes: Option<i64>| TaskCycleTimeRecord {
        cycle_time_minutes: minutes,
        priority: priority.to_string(),
        ..record(id, "done", None, None)
    };
    let records = vec![
        timed(1, "low", Some(4)),
        timed(2, "High", Some(1)),
        timed(3, "medium", None),
        timed(4, "high ", Some(2)),
    ];
    let by_priority = average_cycle_time_by_priority(&records, &mean);
    let shown: Vec<(String, f64, usize)> = by_priority
        .into_iter()
        .map(|s| (s.priority, s.average_cycle_time_minutes, s.completed_tasks))
        .collect();
    assert_eq!(
        shown,
        vec![("high".to_string(), 1.5, 2), ("low".to_string(), 4.0, 1)]
    );
}

#[test]
fn engineers_rank_by_tasks_and_then_by_name() {
    let done = |engineer: Option<&str>, completed: Option<i64>| TaskCycleTimeRecord {
        engineer: engineer.map(|s| s.to_string()),
        ..record(1, "done", None, completed)
    };
    let records = vec![
        done(Some("eng-b"), Some(1)),
        done(Some("eng-c"), Some(1)),
        done(Some("eng-a"), Some(1)),
        done(Some("eng-c"), Some(2)),
        done(Some("eng-d"), None),
        done(None, Some(5)),
    ];
    let ranking = engineer_throughput_ranking(&records, &mean);
    let names: Vec<&str> = ranking.iter().map(|r| r.engineer.as_str()).collect();
    assert_eq!(names, vec!["eng-c", "eng-a", "eng-b"]);
    assert_eq!(ranking[0].completed_tasks, 2);
    assert_eq!(ranking[0].average_cycle_time_minutes, None);
    assert_eq!(ranking[0].average_lead_time_minutes, None);
}

#[test]
fn hours_are_counted_up_to_the_current_one() {
    let records = vec![
        record(1, "done", None, Some(3599)),
        record(2, "done", None, Some(3600)),
        record(3, "done", None, Some(7300)),
        record(4, "done", None, Some(7200)),
        record(5, "done", None, Some(-1)),
        record(6, "todo", None, None),
    ];
    let counts = tasks_completed_per_hour(&records, 7500, 2);
    let shown: Vec<(i64, i64)> = counts.iter().map(|c| (c.hour_start, c.completed_tasks)).collect();
    assert_eq!(shown, vec![(3600, 1), (7200, 2)]);
    let counts = tasks_completed_per_hour(&records, 7500, 0);
    assert_eq!(counts.len(), 1);
    assert_eq!(counts[0].hour_start, 7200);
    let counts = tasks_completed_per_hour(&records, -1, 1);
    assert_eq!((counts[0].hour_start, counts[0].completed_tasks), (-3600, 1));
}

#[test]
fn running_tasks_rank_by_their_age() {
    let records = vec![
        record(3, "in-progress", Some(6000), None),
        record(2, "in-progress", Some(6000), None),
        record(1, "in-progress", Some(9000), None),
        record(4, "done", Some(0), None),
        record(5, "in-progress", Some(0), Some(1)),
        record(6, "in-progress", None, None),
        record(7, "in-progress", Some(i64::MAX), None),
        record(8, "in-progress", Some(60), None),
    ];
    let now = Moment { secs: 7200, nanos: 0 };
    let shown: Vec<(u32, i64)> = longest_running_in_progress_tasks(&records, &now, 9)
        .iter()
        .map(|t| (t.task_id, t.minutes_in_progress))
        .collect();
    assert_eq!(shown, vec![(8, 119), (2, 20), (3, 20), (1, 0)]);
    let first = longest_running_in_progress_tasks(&records, &now, 1);
    assert_eq!(first.len(), 1);
    assert_eq!(first[0].priority, "high");
}
