//! The command queue: one command per line of a file.
//!
//! How a command is written on its line is the caller's business: reading
//! takes the parser, writing takes the written lines.

use vstd::prelude::*;

use crate::jsonl;
use crate::jsonl::{append_record, read_records, write_records};
use crate::paths;
use crate::paths::{joined, team_config_dir};
use crate::text;
use crate::text::copy;

verus! {

/// A command that waits in the queue.
#[derive(Clone, Debug)]
pub enum QueuedCommand {
    Send { from: String, to: String, message: String },
    Assign { from: String, engineer: String, task: String },
}

/// Where the command queue of a project is.
pub open spec fn queue_path(project_root: Seq<char>) -> Seq<char> {
    paths::join_path(paths::team_config_dir_path(project_root), "commands.jsonl"@)
}

/// Where the command queue of a project is.
pub fn command_queue_path(project_root: &str) -> (r: String)
    ensures
        r@ == queue_path(project_root@),
{
    joined(team_config_dir(project_root).as_str(), "commands.jsonl")
}

/// Reads the commands of a queue. Blank lines and lines that hold no command
/// are skipped.
pub fn read_command_queue<F: Fn(String) -> Option<QueuedCommand>>(
    contents: &str,
    parse: &F,
) -> (r: Vec<QueuedCommand>)
    requires
        forall|s: String| #[trigger] call_requires(*parse, (s,)),
    ensures
        jsonl::is_reading(contents@, *parse, r@),
{
    read_records(contents, parse)
}

/// Takes all commands out of a queue: returns them, and what the queue holds
/// afterwards. A queue that holds no command stays as it is.
pub fn drain_command_queue<F: Fn(String) -> Option<QueuedCommand>>(
    contents: &str,
    parse: &F,
) -> (r: (Vec<QueuedCommand>, String))
    requires
        forall|s: String| #[trigger] call_requires(*parse, (s,)),
    ensures
        jsonl::is_reading(contents@, *parse, r.0@),
        r.1@ == (if r.0@.len() == 0 {
            contents@
        } else {
            Seq::empty()
        }),
{
    let commands: Vec<QueuedCommand> = read_command_queue(contents, parse);
    let rest: String = if commands.len() > 0 {
        write_command_queue(&Vec::new())
    } else {
        copy(contents)
    };
    (commands, rest)
}

/// Adds a command, as it is written on its line, to the end of a queue.
pub fn enqueue_command(contents: &str, line: &str) -> (r: String)
    ensures
        r@ == jsonl::with_line(contents@, line@),
{
    append_record(contents, line)
}

/// Writes a queue that holds exactly these commands, as they are written on
/// their lines.
pub fn write_command_queue(lines: &Vec<String>) -> (r: String)
    ensures
        r@ == jsonl::file_of(text::views(lines@)),
{
    write_records(lines)
}

// ---------------------------------------------------------------------------
// Laws

/// What was enqueued is drained: a queue to which commands were added, one by
/// one, gives back these lines to the parser, in order, after what it held.
pub proof fn law_enqueued_commands_are_read_in_order(
    contents: Seq<char>,
    first: Seq<char>,
    second: Seq<char>,
)
    requires
        jsonl::is_whole(contents),
        jsonl::fits_a_line(first),
        jsonl::fits_a_line(second),
    ensures
        jsonl::record_lines(jsonl::with_line(jsonl::with_line(contents, first), second))
            == jsonl::record_lines(contents).push(first).push(second),
{
    jsonl::law_added_line_is_read_last(contents, first);
    jsonl::law_added_line_is_read_last(jsonl::with_line(contents, first), second);
}

/// The parser has one result for each line.
pub open spec fn is_function<F: Fn(String) -> Option<QueuedCommand>>(parse: F) -> bool {
    forall|line: Seq<char>, a: Option<QueuedCommand>, b: Option<QueuedCommand>|
        #![trigger jsonl::is_parse(parse, line, a), jsonl::is_parse(parse, line, b)]
        jsonl::is_parse(parse, line, a) && jsonl::is_parse(parse, line, b) ==> a == b
}

/// The parser reads this line, and as this command.
pub open spec fn reads_as<F: Fn(String) -> Option<QueuedCommand>>(
    parse: F,
    line: Seq<char>,
    command: QueuedCommand,
) -> bool {
    forall|result: Option<QueuedCommand>| #[trigger]
        jsonl::is_parse(parse, line, result) ==> result == Some(command)
}

/// What was written is read back: a queue that was written with some commands
/// holds these commands, in order, and nothing else, where the parser reads
/// each written line back.
pub proof fn law_written_commands_are_read_back<F: Fn(String) -> Option<QueuedCommand>>(
    parse: F,
    commands: Seq<QueuedCommand>,
    lines: Seq<Seq<char>>,
    read: Seq<QueuedCommand>,
)
    requires
        lines.len() == commands.len(),
        forall|i: int| 0 <= i < lines.len() ==> jsonl::fits_a_line(#[trigger] lines[i]),
        forall|i: int|
            0 <= i < lines.len() ==> reads_as(parse, #[trigger] lines[i], commands[i]),
        jsonl::is_reading(jsonl::file_of(lines), parse, read),
    ensures
        read == commands,
{
    jsonl::law_written_file_is_read_back(lines);
    let parsed = jsonl::parsed_of(jsonl::file_of(lines), parse, read);
    let wanted = Seq::new(commands.len(), |i: int| Some(commands[i]));
    assert forall|i: int| 0 <= i < parsed.len() implies #[trigger] parsed[i] == wanted[i] by {
        assert(jsonl::is_parse(parse, lines[i], parsed[i]));
        assert(reads_as(parse, lines[i], commands[i]));
    }
    assert(parsed =~= wanted);
    lemma_all_well_formed(commands);
}

proof fn lemma_all_well_formed(commands: Seq<QueuedCommand>)
    ensures
        jsonl::well_formed(Seq::new(commands.len(), |i: int| Some(commands[i]))) == commands,
    decreases commands.len(),
{
    let all = Seq::new(commands.len(), |i: int| Some(commands[i]));
    if commands.len() > 0 {
        let front = commands.drop_last();
        lemma_all_well_formed(front);
        assert(all.drop_last() =~= Seq::new(front.len(), |i: int| Some(front[i])));
        assert(front.push(commands.last()) =~= commands);
    } else {
        assert(jsonl::well_formed(all) =~= commands);
    }
}

/// What was drained is not drained again: whatever a queue held, what a drain
/// leaves of it holds no command, for reading and for another drain. So a
/// queue without commands, which stays as it is, has none the second time
/// either.
pub proof fn law_second_drain_gives_nothing<F: Fn(String) -> Option<QueuedCommand>>(
    parse: F,
    contents: Seq<char>,
    first: Seq<QueuedCommand>,
    rest: Seq<char>,
    second: Seq<QueuedCommand>,
)
    requires
        is_function(parse),
        jsonl::is_reading(contents, parse, first),
        rest == (if first.len() == 0 {
            contents
        } else {
            Seq::empty()
        }),
        jsonl::is_reading(rest, parse, second),
    ensures
        second.len() == 0,
{
    if first.len() == 0 {
        let a = jsonl::parsed_of(contents, parse, first);
        let b = jsonl::parsed_of(contents, parse, second);
        assert forall|i: int| 0 <= i < a.len() implies a[i] == b[i] by {
            assert(jsonl::is_parse(parse, jsonl::record_lines(contents)[i], a[i]));
            assert(jsonl::is_parse(parse, jsonl::record_lines(contents)[i], b[i]));
        }
        assert(a =~= b);
    } else {
        jsonl::law_empty_file_holds_nothing(parse, second);
    }
}

} // verus!
