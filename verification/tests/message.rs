use std::path::PathBuf;

use batty_team::message::{
    command_queue_path, drain_command_queue, enqueue_command, read_command_queue,
    write_command_queue, QueuedCommand,
};
use serde_json::Value;

fn text(value: &Value, key: &str) -> Option<String> {
    value.get(key)?.as_str().map(|s| s.to_string())
}

fn parse(line: String) -> Option<QueuedCommand> {
    let value: Value = serde_json::from_str(&line).ok()?;
    match value.get("type")?.as_str()? {
        "send" => Some(QueuedCommand::Send {
            from: text(&value, "from")?,
            to: text(&value, "to")?,
            message: text(&value, "message")?,
        }),
        "assign" => Some(QueuedCommand::Assign {
            from: text(&value, "from")?,
            engineer: text(&value, "engineer")?,
            task: text(&value, "task")?,
        }),
        _ => None,
    }
}

fn line_of(cmd: &QueuedCommand) -> String {
    let fields: [(&str, &str); 4] = match cmd {
        QueuedCommand::Send { from, to, message } => [
            ("type", "send"),
            ("from", from.as_str()),
            ("to", to.as_str()),
            ("message", message.as_str()),
        ],
        QueuedCommand::Assign { from, engineer, task } => [
            ("type", "assign"),
            ("from", from.as_str()),
            ("engineer", engineer.as_str()),
            ("task", task.as_str()),
        ],
    };
    let mut map = serde_json::Map::new();
    for (key, value) in fields {
        map.insert(key.to_string(), Value::String(value.to_string()));
    }
    Value::Object(map).to_string()
}

/// A queue file.
struct Queue {
    contents: String,
}

impl Queue {
    fn new() -> Queue {
        Queue { contents: String::new() }
    }

    fn holding(contents: &str) -> Queue {
        Queue { contents: contents.to_string() }
    }

    fn enqueue(&mut self, cmd: &QueuedCommand) {
        self.contents = enqueue_command(&self.contents, &line_of(cmd));
    }

    fn read(&self) -> Vec<QueuedCommand> {
        read_command_queue(&self.contents, &parse)
    }

    fn drain(&mut self) -> Vec<QueuedCommand> {
        let (commands, rest) = drain_command_queue(&self.contents, &parse);
        self.contents = rest;
        commands
    }

    fn write(&mut self, commands: &[QueuedCommand]) {
        let lines: Vec<String> = commands.iter().map(line_of).collect();
        self.contents = write_command_queue(&lines);
    }
}

#[test]
fn send_command_roundtrip() {
    let cmd = QueuedCommand::Send {
        from: "human".into(),
        to: "architect".into(),
        message: "prioritize auth".into(),
    };
    let json = line_of(&cmd);
    let mut queue = Queue::new();
    queue.enqueue(&cmd);
    assert_eq!(queue.contents, format!("{}\n", json));
    let parsed = queue.read().remove(0);
    match parsed {
        QueuedCommand::Send { from, to, message } => {
            assert_eq!(from, "human");
            assert_eq!(to, "architect");
            assert_eq!(message, "prioritize auth");
        }
        _ => panic!("wrong variant"),
    }
}

#[test]
fn assign_command_roundtrip() {
    let cmd = QueuedCommand::Assign {
        from: "black-lead".into(),
        engineer: "eng-1-1".into(),
        task: "fix bug".into(),
    };
    let json = line_of(&cmd);
    let mut queue = Queue::new();
    queue.enqueue(&cmd);
    assert_eq!(queue.contents, format!("{}\n", json));
    let parsed = queue.read().remove(0);
    match parsed {
        QueuedCommand::Assign {
            from,
            engineer,
            task,
        } => {
            assert_eq!(from, "black-lead");
            assert_eq!(engineer, "eng-1-1");
            assert_eq!(task, "fix bug");
        }
        _ => panic!("wrong variant"),
    }
}

#[test]
fn enqueue_and_drain() {
    let mut queue = Queue::new();

    queue.enqueue(
        &QueuedCommand::Send {
            from: "human".into(),
            to: "arch".into(),
            message: "hello".into(),
        },
    );
    queue.enqueue(
        &QueuedCommand::Assign {
            from: "black-lead".into(),
            engineer: "eng-1".into(),
            task: "work".into(),
        },
    );

    let commands = queue.drain();
    assert_eq!(commands.len(), 2);

    // After drain, queue should be empty
    let commands = queue.drain();
    assert!(commands.is_empty());
}

#[test]
fn drain_nonexistent_queue_returns_empty() {
    let mut queue = Queue::new();
    let commands = queue.drain();
    assert!(commands.is_empty());
}

#[test]
fn read_command_queue_keeps_file_contents_intact() {
    let mut queue = Queue::new();
    queue.enqueue(
        &QueuedCommand::Send {
            from: "human".into(),
            to: "arch".into(),
            message: "hello".into(),
        },
    );

    let commands = queue.read();
    assert_eq!(commands.len(), 1);
    let persisted = queue.contents.clone();
    assert!(persisted.contains("\"message\":\"hello\""));
}

#[test]
fn write_command_queue_rewrites_remaining_commands_atomically() {
    let mut queue = Queue::new();
    queue.enqueue(
        &QueuedCommand::Send {
            from: "human".into(),
            to: "arch".into(),
            message: "hello".into(),
        },
    );

    queue.write(
        &[QueuedCommand::Assign {
            from: "manager".into(),
            engineer: "eng-1".into(),
            task: "Task #1".into(),
        }],
    );

    let commands = queue.read();
    assert_eq!(commands.len(), 1);
    match &commands[0] {
        QueuedCommand::Assign { engineer, task, .. } => {
            assert_eq!(engineer, "eng-1");
            assert_eq!(task, "Task #1");
        }
        other => panic!("expected assign command after rewrite, got {other:?}"),
    }
}

#[test]
fn drain_skips_malformed_lines() {
    let mut queue = Queue::holding("not json\n{\"type\":\"assign\",\"from\":\"manager\",\"engineer\":\"e1\",\"task\":\"t1\"}\n");
    let commands = queue.drain();
    assert_eq!(commands.len(), 1);
}

#[test]
fn test_drain_command_queue_skips_unknown_and_incomplete_commands() {
    let mut queue = Queue::holding(&[
        "{\"type\":\"noop\",\"from\":\"manager\"}\n",
        "{\"type\":\"send\",\"from\":\"manager\",\"message\":\"missing recipient\"}\n",
        "{\"type\":\"assign\",\"from\":\"manager\",\"engineer\":\"eng-1\"}\n",
        "{\"type\":\"send\",\"from\":\"manager\",\"to\":\"architect\",\"message\":\"valid\"}\n",
    ].concat());

    let commands = queue.drain();

    assert_eq!(commands.len(), 1);
    match &commands[0] {
        QueuedCommand::Send { from, to, message } => {
            assert_eq!(from, "manager");
            assert_eq!(to, "architect");
            assert_eq!(message, "valid");
        }
        other => panic!("expected valid send command, got {other:?}"),
    }
}

#[test]
fn send_command_preserves_multiline_message() {
    let cmd = QueuedCommand::Send {
        from: "manager".into(),
        to: "eng-1".into(),
        message: "line one\nline two\nline three".into(),
    };
    let json = line_of(&cmd);
    let mut queue = Queue::new();
    queue.enqueue(&cmd);
    assert_eq!(queue.contents, format!("{}\n", json));
    let parsed = queue.read().remove(0);
    match parsed {
        QueuedCommand::Send { message, .. } => {
            assert_eq!(message, "line one\nline two\nline three");
        }
        _ => panic!("wrong variant"),
    }
}

#[test]
fn send_command_preserves_empty_message() {
    let cmd = QueuedCommand::Send {
        from: "human".into(),
        to: "architect".into(),
        message: "".into(),
    };
    let json = line_of(&cmd);
    let mut queue = Queue::new();
    queue.enqueue(&cmd);
    assert_eq!(queue.contents, format!("{}\n", json));
    let parsed = queue.read().remove(0);
    match parsed {
        QueuedCommand::Send { message, .. } => assert!(message.is_empty()),
        _ => panic!("wrong variant"),
    }
}

#[test]
fn send_command_preserves_unicode() {
    let cmd = QueuedCommand::Send {
        from: "人間".into(),
        to: "アーキ".into(),
        message: "日本語テスト 🚀".into(),
    };
    let json = line_of(&cmd);
    let mut queue = Queue::new();
    queue.enqueue(&cmd);
    assert_eq!(queue.contents, format!("{}\n", json));
    let parsed = queue.read().remove(0);
    match parsed {
        QueuedCommand::Send { from, to, message } => {
            assert_eq!(from, "人間");
            assert_eq!(to, "アーキ");
            assert_eq!(message, "日本語テスト 🚀");
        }
        _ => panic!("wrong variant"),
    }
}

#[test]
fn assign_command_preserves_special_chars_in_task() {
    let cmd = QueuedCommand::Assign {
        from: "manager".into(),
        engineer: "eng-1-1".into(),
        task: "Task #42: Fix \"auth\" — it's broken!".into(),
    };
    let json = line_of(&cmd);
    let mut queue = Queue::new();
    queue.enqueue(&cmd);
    assert_eq!(queue.contents, format!("{}\n", json));
    let parsed = queue.read().remove(0);
    match parsed {
        QueuedCommand::Assign { task, .. } => {
            assert_eq!(task, "Task #42: Fix \"auth\" — it's broken!");
        }
        _ => panic!("wrong variant"),
    }
}

#[test]
fn enqueue_creates_parent_directories() {
    let mut queue = Queue::new();

    queue.enqueue(
        &QueuedCommand::Send {
            from: "human".into(),
            to: "arch".into(),
            message: "hello".into(),
        },
    );

    let commands = queue.read();
    assert_eq!(commands.len(), 1);
}

#[test]
fn enqueue_appends_multiple_commands_preserving_order() {
    let mut queue = Queue::new();

    for i in 0..5 {
        queue.enqueue(
            &QueuedCommand::Send {
                from: "human".into(),
                to: "arch".into(),
                message: format!("msg-{i}"),
            },
        );
    }

    let commands = queue.read();
    assert_eq!(commands.len(), 5);
    for (i, cmd) in commands.iter().enumerate() {
        match cmd {
            QueuedCommand::Send { message, .. } => {
                assert_eq!(message, &format!("msg-{i}"));
            }
            _ => panic!("wrong variant at index {i}"),
        }
    }
}

#[test]
fn read_command_queue_skips_empty_lines() {
    let queue = Queue::holding("\n\n{\"type\":\"send\",\"from\":\"a\",\"to\":\"b\",\"message\":\"hi\"}\n\n\n");

    let commands = queue.read();
    assert_eq!(commands.len(), 1);
}

#[test]
fn read_command_queue_skips_whitespace_only_lines() {
    let queue = Queue::holding("   \n\t\n{\"type\":\"send\",\"from\":\"a\",\"to\":\"b\",\"message\":\"ok\"}\n  \n");

    let commands = queue.read();
    assert_eq!(commands.len(), 1);
}

#[test]
fn read_command_queue_mixed_valid_and_malformed() {
    let queue = Queue::holding(&[
        "{\"type\":\"send\",\"from\":\"a\",\"to\":\"b\",\"message\":\"first\"}\n",
        "garbage line\n",
        "{\"type\":\"assign\",\"from\":\"m\",\"engineer\":\"e1\",\"task\":\"t1\"}\n",
        "{\"invalid json\n",
        "{\"type\":\"send\",\"from\":\"c\",\"to\":\"d\",\"message\":\"last\"}\n",
    ].concat());

    let commands = queue.read();
    assert_eq!(
        commands.len(),
        3,
        "should parse 3 valid commands, skip 2 malformed"
    );
}

#[test]
fn write_command_queue_empty_slice_creates_empty_file() {
    let mut queue = Queue::new();

    // First enqueue something
    queue.enqueue(
        &QueuedCommand::Send {
            from: "a".into(),
            to: "b".into(),
            message: "hello".into(),
        },
    );

    // Overwrite with empty
    queue.write(&[]);

    let commands = queue.read();
    assert!(commands.is_empty());
}

#[test]
fn write_command_queue_creates_parent_dirs() {
    let mut queue = Queue::new();

    queue.write(
        &[QueuedCommand::Assign {
            from: "m".into(),
            engineer: "e1".into(),
            task: "t1".into(),
        }],
    );

    let commands = queue.read();
    assert_eq!(commands.len(), 1);
}

#[test]
fn command_queue_path_returns_expected_path() {
    let root = "/project";
    let path = PathBuf::from(command_queue_path(root));
    assert_eq!(
        path,
        PathBuf::from("/project/.batty/team_config/commands.jsonl")
    );
}

#[test]
fn command_queue_path_with_trailing_slash() {
    let root = "/project/";
    let path = PathBuf::from(command_queue_path(root));
    assert_eq!(
        path,
        PathBuf::from("/project/.batty/team_config/commands.jsonl")
    );
}

#[test]
fn drain_empties_queue_file_but_keeps_file() {
    let mut queue = Queue::new();

    queue.enqueue(
        &QueuedCommand::Send {
            from: "a".into(),
            to: "b".into(),
            message: "msg".into(),
        },
    );

    let drained = queue.drain();
    assert_eq!(drained.len(), 1);

    // File should still exist but be effectively empty
    let commands = queue.read();
    assert!(commands.is_empty());
}

#[test]
fn drain_twice_second_returns_empty() {
    let mut queue = Queue::new();

    queue.enqueue(
        &QueuedCommand::Assign {
            from: "m".into(),
            engineer: "e".into(),
            task: "t".into(),
        },
    );

    let first = queue.drain();
    assert_eq!(first.len(), 1);

    let second = queue.drain();
    assert!(second.is_empty());
}

#[test]
fn queued_command_debug_format() {
    let cmd = QueuedCommand::Send {
        from: "human".into(),
        to: "arch".into(),
        message: "test".into(),
    };
    let debug = format!("{cmd:?}");
    assert!(debug.contains("Send"));
    assert!(debug.contains("human"));
}

#[test]
fn queued_command_clone() {
    let cmd = QueuedCommand::Assign {
        from: "manager".into(),
        engineer: "eng-1".into(),
        task: "build feature".into(),
    };
    let cloned = cmd.clone();
    let json_original = line_of(&cmd);
    let json_cloned = line_of(&cloned);
    assert_eq!(json_original, json_cloned);
}

#[test]
fn send_command_json_has_type_send_tag() {
    let cmd = QueuedCommand::Send {
        from: "a".into(),
        to: "b".into(),
        message: "c".into(),
    };
    let json = line_of(&cmd);
    assert!(json.contains("\"type\":\"send\""), "got: {json}");
}

#[test]
fn assign_command_json_has_type_assign_tag() {
    let cmd = QueuedCommand::Assign {
        from: "a".into(),
        engineer: "b".into(),
        task: "c".into(),
    };
    let json = line_of(&cmd);
    assert!(json.contains("\"type\":\"assign\""), "got: {json}");
}

#[test]
fn draining_a_queue_without_commands_leaves_it_alone() {
    let mut queue = Queue::holding("not json\n");
    assert!(queue.drain().is_empty());
    assert_eq!(queue.contents, "not json\n");
}

#[test]
fn a_written_queue_is_read_back_in_order() {
    let a = QueuedCommand::Send {
        from: "a".into(),
        to: "b".into(),
        message: "one\ntwo".into(),
    };
    let b = QueuedCommand::Assign {
        from: "m".into(),
        engineer: "e1".into(),
        task: "t1".into(),
    };
    let mut queue = Queue::new();
    queue.write(&[a.clone(), b.clone()]);
    let lines: Vec<String> = queue.read().iter().map(line_of).collect();
    assert_eq!(lines, vec![line_of(&a), line_of(&b)]);
}

#[test]
fn written_commands_are_read_back() {
    let commands = vec![
        QueuedCommand::Send {
            from: "human".into(),
            to: "arch".into(),
            message: "two\nlines and a \"quote\"".into(),
        },
        QueuedCommand::Assign {
            from: "manager".into(),
            engineer: "eng-1".into(),
            task: "Task #1".into(),
        },
    ];
    let mut queue = Queue::holding("left over\n");
    queue.write(&commands);
    let read: Vec<String> = queue.read().iter().map(line_of).collect();
    let written: Vec<String> = commands.iter().map(line_of).collect();
    assert_eq!(read, written);
    queue.write(&[]);
    assert!(queue.read().is_empty());
    assert_eq!(queue.contents, "");
}

#[test]
fn a_queue_without_commands_is_drained_of_none_twice() {
    let mut queue = Queue::holding("\nnot a command\n{}\n");
    assert!(queue.drain().is_empty());
    assert_eq!(queue.contents, "\nnot a command\n{}\n");
    assert!(queue.drain().is_empty());
}
