use batty_team::load::{
    average_load, capture_team_load, counts_as_active_load, load_point_char,
    read_team_load_history, render_load_graph, session_name, show_load, LoadEvent,
    TeamLoadSnapshot, TeamStatusRow, LOAD_GRAPH_WIDTH,
};

fn row(role_type: &str, state: &str) -> TeamStatusRow {
    TeamStatusRow {
        role_type: role_type.to_string(),
        state: state.to_string(),
    }
}

fn mean(values: Vec<f64>) -> f64 {
    let count = values.len() as f64;
    values.into_iter().sum::<f64>() / count
}

fn level(value: f64) -> usize {
    (value.clamp(0.0, 1.0) * 5.0).round() as usize
}

fn snapshot(timestamp: u64, working_members: usize, load: f64) -> TeamLoadSnapshot<f64> {
    TeamLoadSnapshot {
        timestamp,
        total_members: 10,
        working_members,
        load,
        session_running: true,
    }
}

#[test]
fn counts_as_active_load_treats_triaging_as_working() {
    let triaging = row("Manager", "triaging");
    let reviewing = row("Manager", "reviewing");
    let idle = row("Manager", "idle");

    assert!(counts_as_active_load(&triaging));
    assert!(counts_as_active_load(&reviewing));
    assert!(!counts_as_active_load(&idle));
    assert!(counts_as_active_load(&row("Manager", "working")));
}

#[test]
fn average_load_ignores_points_older_than_window() {
    let now = 10_000u64;
    let samples = vec![
        snapshot(now - 3_000, 0, 0.8),
        snapshot(now - 10, 0, 0.4),
        snapshot(now - 20, 0, 0.6),
    ];

    let avg_60s = average_load(&samples, now, 60, &mean).unwrap();
    assert!((avg_60s - 0.5).abs() < 0.0001);
    assert!(average_load(&samples, now, 5, &mean).is_none());
}

#[test]
fn render_load_graph_returns_expected_width() {
    let now = 10_000u64;
    let samples = vec![
        snapshot(now - 3_600, 2, 0.2),
        snapshot(now - 1_800, 5, 0.5),
        snapshot(now - 900, 10, 1.0),
        snapshot(now - 600, 0, 0.0),
    ];

    let graph = render_load_graph(&samples, now, 0.0, &mean, &level);
    assert_eq!(graph.len(), LOAD_GRAPH_WIDTH);
    assert!(graph.chars().all(|c| " .:=#@".contains(c)));
    // The load holds until the next sample.
    assert_eq!(graph, ".".repeat(15) + &"=".repeat(7) + &"@".repeat(3) + &" ".repeat(5));
}

#[test]
fn a_graph_without_samples_says_so() {
    let none: Vec<TeamLoadSnapshot<f64>> = Vec::new();
    assert_eq!(
        render_load_graph(&none, 10_000, 0.0, &mean, &level),
        "(no historical load data yet)"
    );
}

#[test]
fn a_sample_of_the_last_second_is_drawn_last() {
    let graph = render_load_graph(&vec![snapshot(10_000, 1, 1.0)], 10_000, 0.0, &mean, &level);
    assert_eq!(graph, " ".repeat(29) + "@");
}

#[test]
fn levels_have_their_characters() {
    let drawn: String = (0..8).map(load_point_char).collect();
    assert_eq!(drawn, " .:=#@@@");
}

#[test]
fn the_load_counts_everybody_but_the_user() {
    let share = |working: usize, total: usize| working as f64 / total as f64;
    let rows = vec![
        row("User", "working"),
        row("Manager", "triaging"),
        row("Engineer", "idle"),
        row("Engineer", "working"),
        row("Engineer", "idle"),
    ];
    let load = capture_team_load(&rows, true, 77, 0.0, &share);
    assert_eq!(load.timestamp, 77);
    assert_eq!((load.working_members, load.total_members), (2, 4));
    assert_eq!(load.load, 0.5);
    assert!(load.session_running);

    let empty = capture_team_load(&vec![row("User", "working")], false, 78, 0.0, &share);
    assert_eq!((empty.working_members, empty.total_members), (0, 0));
    assert_eq!(empty.load, 0.0);
    assert!(!empty.session_running);
    assert_eq!(session_name("squad"), "batty-squad");
}

#[test]
fn the_history_holds_whole_load_events() {
    let event = |name: &str, load: Option<f64>, total: Option<u32>, running: Option<bool>| LoadEvent {
        event: name.to_string(),
        ts: 5,
        load,
        working_members: Some(1),
        total_members: total,
        session_running: running,
    };
    let events = vec![
        event("load_snapshot", Some(0.25), Some(4), None),
        event("task_assigned", Some(0.25), Some(4), Some(true)),
        event("load_snapshot", None, Some(4), Some(true)),
        event("load_snapshot", Some(0.25), None, Some(true)),
        event("load_snapshot", Some(0.5), Some(2), Some(true)),
    ];
    let history = read_team_load_history(&events);
    assert_eq!(history.len(), 2);
    assert_eq!((history[0].timestamp, history[0].total_members), (5, 4));
    assert!(!history[0].session_running);
    assert_eq!(history[1].load, 0.5);
    assert!(history[1].session_running);
}

#[test]
fn the_report_shows_load_averages_and_graph() {
    let report = show_load(
        "50.0",
        2,
        4,
        true,
        &(Some("50.0".to_string()), Some("25.0".to_string()), None),
        "@@@",
    );
    assert_eq!(
        report,
        "Current load: 50.0% (2 / 4 members working)\n\
         Session: running\n\
         10m avg: 50.0%\n\
         30m avg: 25.0%\n\
         60m avg: n/a\n\
         Load graph (1h):\n\
         @@@\n"
    );
    let stopped = show_load("0.0", 0, 0, false, &(None, None, None), "");
    assert!(stopped.starts_with("Current load: 0.0% (0 / 1 members working)\nSession: stopped\n"));
}
