use std::collections::HashMap;
use std::path::{Path, PathBuf};

use batty_team::assignment::{
    assignment_packet, augment_assignment_message, build_dispatch_context, git_commit_summary,
    limit_word_count, predict_files, relevant_failure_patterns,
};
use batty_team::learnings::{
    append_task_completion_learning, completion_learning_at, events_of_related,
    load_task_learnings, load_task_metrics, related_completed_tasks, related_task_ids,
    related_task_score, relevant_learnings, task_learnings_path, Candidate, LearningEntry,
    RelatedTaskContext, Task, TaskMetricsRow, TaskMetricsSummary, MAX_CONTEXT_WORDS,
    MAX_RELATED_TASKS, MAX_RELEVANT_LEARNINGS,
};
use batty_team::merge::git_ops::GitReply;
use batty_team::paths::{parent_of, stem_of};
use batty_team::relevance::{
    clean_task_path_token, extract_frontmatter, extract_keywords, extract_path_hints,
    load_changed_paths, parent_dir,
};

fn strings(items: &[&str]) -> Vec<String> {
    items.iter().map(|s| s.to_string()).collect()
}

fn sample_task() -> Task {
    Task {
        id: 42,
        title: "Improve dispatch scoring".to_string(),
        description: "Teach dispatch queue scoring to prefer daemon work.".to_string(),
        status: "todo".to_string(),
        tags: strings(&["dispatch", "daemon"]),
        completed: Some("2026-04-06T08:00:00Z".to_string()),
    }
}

fn metrics(retries: i64, escalations: i64, completed_at: Option<i64>) -> TaskMetricsSummary {
    TaskMetricsSummary {
        retries,
        escalations,
        context_restart_count: 0,
        completed_at,
    }
}

/// The message for a task, from what is known of the project.
fn augment(
    task: &Task,
    candidates: &Vec<Candidate>,
    metrics: HashMap<u32, TaskMetricsSummary>,
    patterns: &Vec<String>,
    entries: &Vec<LearningEntry>,
    allowed_files: &Vec<String>,
) -> String {
    let related = related_completed_tasks(task, candidates, metrics, MAX_RELATED_TASKS);
    let chosen = relevant_learnings(task, entries, MAX_RELEVANT_LEARNINGS);
    let context = build_dispatch_context(task, candidates, &related, patterns, entries, &chosen);
    let token = format!("Scope ACK #{}", task.id);
    augment_assignment_message(task, allowed_files, &token, "manager", &context)
}

#[test]
fn append_and_match_learnings_by_tag_and_keyword() {
    let completed = sample_task();
    let entry = append_task_completion_learning(
        &completed,
        "eng-1",
        "Prefer prior daemon dispatch patterns over generic scoring.",
    );

    let mut current = sample_task();
    current.id = 99;
    current.tags = vec!["dispatch".to_string()];
    current.description = "Refine daemon dispatch prompts using queue history.".to_string();

    let augmented = augment(
        &current,
        &vec![],
        HashMap::new(),
        &vec![],
        &vec![entry],
        &vec![],
    );
    assert!(augmented.contains("Relevant prior learnings:"));
    assert!(augmented.contains("Prefer prior daemon dispatch patterns"));
    assert!(augmented.contains("[dispatch, daemon]"));
}

#[test]
fn augment_assignment_message_skips_when_no_matches() {
    let mut prior = sample_task();
    prior.tags = vec!["grafana".to_string()];
    prior.description = "Alerting rules and dashboards.".to_string();
    let entry = append_task_completion_learning(
        &prior,
        "eng-1",
        "Keep alert thresholds conservative.",
    );

    let mut current = sample_task();
    current.tags = vec!["dispatch".to_string()];
    current.description = "Dispatch prompt and work allocation.".to_string();

    let augmented = augment(
        &current,
        &vec![],
        HashMap::new(),
        &vec![],
        &vec![entry],
        &vec![],
    );
    assert!(!augmented.contains("Relevant prior learnings:"));
}

#[test]
fn augment_assignment_message_includes_richer_dispatch_context() {
    let prior = Task {
        id: 10,
        title: "Prior dispatch context work".to_string(),
        description: "Improve dispatch context for queue prompts.".to_string(),
        status: "done".to_string(),
        tags: vec!["dispatch".to_string()],
        completed: Some("2026-04-06T08:00:00Z".to_string()),
    };
    let entry = append_task_completion_learning(
        &prior,
        "eng-2",
        "Call out likely queue files before coding.",
    );
    let candidates = vec![Candidate {
        task: prior,
        changed_paths: strings(&["src/team/learnings.rs", "src/team/dispatch/queue.rs"]),
        git_summary: None,
    }];
    let rows = vec![TaskMetricsRow {
        task_id: "10".to_string(),
        metrics: metrics(0, 2, Some(1_775_462_400)),
    }];

    let mut current = sample_task();
    current.id = 99;
    current.description =
        "Expand dispatch context in src/team/learnings.rs and src/team/dispatch/queue.rs."
            .to_string();

    let augmented = augment(
        &current,
        &candidates,
        load_task_metrics(&rows),
        &strings(&["2 escalations in the window"]),
        &vec![entry],
        &vec![],
    );
    assert!(augmented.contains("Dispatch context:"));
    assert!(augmented.contains("Recent related completions:"));
    assert!(augmented.contains("Failure history from similar tasks:"));
    assert!(augmented.contains("Likely files to inspect:"));
    assert!(augmented.contains("Relevant prior learnings:"));
    assert!(augmented.contains("src/team/learnings.rs"));
    assert!(augmented.ends_with(
        "\n\nDispatch context:\n\
         Recent related completions:\n\
         - Task #10: Prior dispatch context work (escalations=2)\n\n\
         Failure history from similar tasks:\n\
         - 2 escalations in the window\n\n\
         Likely files to inspect:\n\
         - src/team/learnings.rs\n\
         - src/team/dispatch/queue.rs\n\
         - src/team/dispatch/queue.rs.\n\n\
         Relevant prior learnings:\n\
         - Task #10 [dispatch] Call out likely queue files before coding."
    ));
}

#[test]
fn dispatch_context_is_capped_to_500_words() {
    let repeated = vec!["context"; 700].join(" ");
    let truncated = limit_word_count(&repeated, MAX_CONTEXT_WORDS);
    assert!(truncated.split_whitespace().count() <= MAX_CONTEXT_WORDS + 1);
    assert!(truncated.ends_with("context ..."));
}

#[test]
fn augment_assignment_message_includes_scope_packet() {
    let mut current = sample_task();
    current.id = 587;
    current.description =
        "Harden scope validation.\nSCOPE FENCE: src/team/completion.rs, src/team/review.rs\n"
            .to_string();
    let fence = strings(&["src/team/completion.rs", "src/team/review.rs"]);

    let augmented = augment(
        &current,
        &vec![],
        HashMap::new(),
        &vec![],
        &vec![],
        &fence,
    );
    assert!(augmented.contains("Assignment Packet:"));
    assert!(augmented.contains("allowed_files:"));
    assert!(augmented.contains("src/team/completion.rs"));
    assert!(augmented.contains("src/team/review.rs"));
    assert!(augmented.contains("scope_ack_required: true"));
    assert!(augmented.contains("Scope ACK #587"));
    assert!(augmented.contains("batty send manager"));
}

#[test]
fn an_assignment_packet_is_written_in_full() {
    let task = sample_task();
    assert_eq!(
        assignment_packet(&task, &vec![], "Scope ACK #42", "lead"),
        "Assignment Packet:\n```yaml\ntask_id: 42\nallowed_files: []\n\
         scope_ack_required: false\nscope_ack_token: \"Scope ACK #42\"\n\
         scope_ack_command: \"batty send lead \\\"Scope ACK #42\\\"\"\n```\n"
    );
    assert_eq!(
        assignment_packet(&task, &strings(&["a.rs", "b.rs"]), "T", "lead"),
        "Assignment Packet:\n```yaml\ntask_id: 42\nallowed_files:\n  - a.rs\n  - b.rs\n\
         scope_ack_required: true\nscope_ack_token: \"T\"\n\
         scope_ack_command: \"batty send lead \\\"T\\\"\"\n```\n\
         Before your first file write, run `batty send lead \"T\"`.\n"
    );
    assert_eq!(
        augment_assignment_message(&task, &vec![], "T", "lead", ""),
        format!(
            "Task #42: Improve dispatch scoring\n\n\
             Teach dispatch queue scoring to prefer daemon work.\n\n{}",
            assignment_packet(&task, &vec![], "T", "lead")
        )
    );
}

#[test]
fn a_limited_text_keeps_its_lines() {
    assert_eq!(limit_word_count("a b\n\n\nc d e\nf", 4), "a b\n\nc d ...");
    assert_eq!(limit_word_count("a b\nc", 2), "a b");
    assert_eq!(limit_word_count("  a  b \n \n", 9), "a  b");
    assert_eq!(limit_word_count("a b", 0), "");
}

#[test]
fn a_completion_leaves_its_keywords_in_order() {
    let mut task = sample_task();
    let entry = completion_learning_at(&task, "eng-1", "  done \n", "now");
    assert_eq!(entry.task_id, 42);
    assert_eq!(entry.summary, "done");
    assert_eq!(entry.engineer, "eng-1");
    assert_eq!(entry.completed_at, "2026-04-06T08:00:00Z");
    assert_eq!(
        entry.keywords,
        strings(&[
            "daemon", "dispatch", "improve", "prefer", "queue", "scoring", "teach", "work"
        ])
    );
    task.completed = None;
    assert_eq!(completion_learning_at(&task, "e", "s", "now").completed_at, "now");
    let stamped = append_task_completion_learning(&task, "e", "s").completed_at;
    assert!(stamped.contains('T') && stamped.ends_with("+00:00"));
}

#[test]
fn keywords_are_long_words_once() {
    assert_eq!(
        extract_keywords("The Queue, the queue: 12345 abc1 xyz"),
        strings(&["queue", "abc1"])
    );
    assert!(extract_keywords("a bb ccc 1234").is_empty());
}

#[test]
fn related_tasks_are_scored_and_ranked() {
    let task = sample_task();
    let mut tagged = sample_task();
    tagged.id = 1;
    tagged.status = "done".to_string();
    tagged.title = "Other".to_string();
    tagged.description = "".to_string();
    tagged.tags = strings(&["Dispatch"]);
    let mut worded = sample_task();
    worded.id = 2;
    worded.status = "done".to_string();
    worded.title = "Queue".to_string();
    worded.description = "".to_string();
    worded.tags = vec![];
    let mut open = sample_task();
    open.id = 3;
    let mut none = sample_task();
    none.id = 4;
    none.status = "done".to_string();
    none.title = "Grafana".to_string();
    none.description = "".to_string();
    none.tags = vec![];
    let candidates: Vec<Candidate> = vec![worded, tagged, open, none]
        .into_iter()
        .map(|task| Candidate { task, changed_paths: vec![], git_summary: None })
        .collect();
    let scores: Vec<usize> = candidates.iter().map(|c| related_task_score(&task, c)).collect();
    assert_eq!(scores[0], 1);
    assert_eq!(scores[1], 4);
    assert_eq!(scores[3], 0);

    let related = related_completed_tasks(&task, &candidates, HashMap::new(), 3);
    let ids: Vec<usize> = related.iter().map(|r| r.candidate).collect();
    assert_eq!(ids, vec![1, 0]);
    assert_eq!(related_task_ids(&candidates, &related), strings(&["1", "2"]));
    let events = vec![Some("2".to_string()), None, Some("9".to_string()), Some("1".to_string())];
    assert_eq!(events_of_related(&candidates, &related, &events), vec![0, 3]);
    assert_eq!(related_completed_tasks(&task, &candidates, HashMap::new(), 1).len(), 1);
}

#[test]
fn equally_related_tasks_rank_by_their_time() {
    let task = sample_task();
    let candidate = |id: u32, completed: Option<&str>| {
        let mut t = sample_task();
        t.id = id;
        t.status = "done".to_string();
        t.completed = completed.map(|s| s.to_string());
        Candidate { task: t, changed_paths: vec![], git_summary: None }
    };
    let candidates = vec![
        candidate(1, None),
        candidate(2, Some("2026-01-01")),
        candidate(3, Some("2026-02-01")),
        candidate(4, None),
        candidate(5, None),
    ];
    let rows = vec![TaskMetricsRow {
        task_id: "5".to_string(),
        metrics: metrics(1, 0, Some(7)),
    }];
    let related = related_completed_tasks(&task, &candidates, load_task_metrics(&rows), 9);
    let order: Vec<usize> = related.iter().map(|r| r.candidate).collect();
    assert_eq!(order, vec![4, 2, 1, 3, 0]);
    assert_eq!(related[0].metrics.retries, 1);
}

#[test]
fn metrics_are_keyed_by_numeric_task_ids() {
    let row = |id: &str, retries: i64| TaskMetricsRow {
        task_id: id.to_string(),
        metrics: metrics(retries, 0, None),
    };
    let found = load_task_metrics(&vec![row("7", 1), row("x", 2), row("7", 3), row("+8", 4)]);
    assert_eq!(found.len(), 2);
    assert_eq!(found[&7].retries, 3);
    assert_eq!(found[&8].retries, 4);
}

#[test]
fn learnings_rank_by_score_and_then_by_time() {
    let task = sample_task();
    let entry = |id: u32, tags: &[&str], keywords: &[&str], at: &str| LearningEntry {
        task_id: id,
        title: "t".to_string(),
        summary: "s".to_string(),
        tags: strings(tags),
        keywords: strings(keywords),
        engineer: "e".to_string(),
        completed_at: at.to_string(),
    };
    let entries = vec![
        entry(1, &[], &["queue"], "2026-01-01"),
        entry(2, &["DAEMON"], &[], "2026-01-01"),
        entry(42, &["daemon"], &["queue"], "2026-01-01"),
        entry(3, &["daemon"], &[], "2026-02-01"),
        entry(4, &["other"], &["nothing"], "2026-03-01"),
    ];
    assert_eq!(relevant_learnings(&task, &entries, 3), vec![3, 1, 0]);
    assert_eq!(relevant_learnings(&task, &entries, 1), vec![3]);
}

#[test]
fn malformed_learnings_are_skipped() {
    let parse = |line: String| {
        if line.starts_with('#') {
            None
        } else {
            Some(completion_learning_at(&sample_task(), "e", &line, "now"))
        }
    };
    let entries = load_task_learnings("one\n\n#bad\n  two  \n", &parse);
    let summaries: Vec<&str> = entries.iter().map(|e| e.summary.as_str()).collect();
    assert_eq!(summaries, vec!["one", "two"]);
    assert_eq!(
        PathBuf::from(task_learnings_path("/p")),
        Path::new("/p").join(".batty").join("learnings").join("task_learnings.jsonl")
    );
}

#[test]
fn files_are_predicted_from_related_tasks_and_hints() {
    let mut task = sample_task();
    task.description = "Look at `src/b.rs`, (src/c.rs) and plain words.".to_string();
    let candidates = vec![Candidate {
        task: sample_task(),
        changed_paths: strings(&["src/a.rs", "src/c.rs"]),
        git_summary: None,
    }];
    let related = vec![RelatedTaskContext {
        candidate: 0,
        score: 2,
        metrics: metrics(0, 0, None),
    }];
    assert_eq!(
        predict_files(&candidates, &related, &task),
        strings(&["src/c.rs", "src/a.rs", "src/b.rs"])
    );
    assert_eq!(
        relevant_failure_patterns(&related, &strings(&["a", "b", "c"])),
        strings(&["a", "b"])
    );
    assert!(relevant_failure_patterns(&vec![], &strings(&["a"])).is_empty());
}

#[test]
fn path_hints_are_cleaned() {
    assert_eq!(clean_task_path_token("(`src/a.rs`),").as_deref(), Some("src/a.rs"));
    assert_eq!(clean_task_path_token("word"), None);
    assert_eq!(parent_dir("src/team/a.rs").as_deref(), Some("src/team"));
    assert_eq!(parent_dir("a.rs"), None);
    assert_eq!(parent_dir("./a.rs"), None);
    let mut hints = extract_path_hints("a/b, c/d a/b x");
    hints.sort();
    assert_eq!(hints, strings(&["a/b", "c/d"]));
}

#[test]
fn parents_and_stems_are_those_of_std() {
    for path in [
        "", "/", "a", "a/", "a/b", "/a", "/a/b.c", "a//b", "a/b/..", "a/.", "./a", "../a", "..",
        ".", "a.b.c", ".hidden", "x/.hidden", "x/y.", "a/b///", "//a", "x/..y",
    ] {
        let std_path = Path::new(path);
        assert_eq!(
            parent_of(path).map(PathBuf::from),
            std_path.parent().map(|p| p.to_path_buf()),
            "parent of {path:?}"
        );
        assert_eq!(
            stem_of(path),
            std_path.file_stem().map(|s| s.to_string_lossy().to_string()),
            "stem of {path:?}"
        );
    }
}

#[test]
fn frontmatter_stands_between_dashes() {
    assert_eq!(extract_frontmatter("---\nid: 1\n---\nbody").as_deref(), Some("id: 1"));
    assert_eq!(extract_frontmatter("\n ---id: 1\n---").as_deref(), Some("id: 1"));
    assert_eq!(extract_frontmatter("id: 1\n---"), None);
    assert_eq!(extract_frontmatter("---\nid: 1"), None);
    let parse = |front: String| vec![front];
    assert_eq!(load_changed_paths("---\na\n---\n", &parse), strings(&["a"]));
    assert!(load_changed_paths("no", &parse).is_empty());
}

#[test]
fn commit_summaries_are_trimmed() {
    let reply = |success: bool, stdout: &str| GitReply::Ran {
        success,
        stdout: stdout.to_string(),
        stderr: String::new(),
    };
    assert_eq!(git_commit_summary(&reply(true, " Fix it\n")).as_deref(), Some("Fix it"));
    assert_eq!(git_commit_summary(&reply(true, "\n")), None);
    assert_eq!(git_commit_summary(&reply(false, "Fix it\n")), None);
    assert_eq!(git_commit_summary(&GitReply::NotRun), None);
}
