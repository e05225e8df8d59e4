# batty_team

The rules of a team of coding agents, as a library that is verified with
Verus: inboxes and message routing, the command queue, learnings and
assignments, metrics and the telemetry dashboard, launching and resuming
agents, pane layouts, scaffolding and exports, and the path of an engineer's
branch to `main`.

- `src/` is the library. It does no input or output: facts come in as plain
  values, decisions go out as plain values. Each public function states what it
  returns; the public proof functions whose names begin with `law_` state what
  holds across functions.
- `app/` is the ordinary Rust around it: maildirs, files, git, tmux, the
  telemetry database, and everything that calculates with floating point.
- `tests/` runs the library on concrete values.

## Where to look

| Subject | Modules |
| --- | --- |
| Inboxes | `inbox`, `mail`, `inbox_queue`, `inbox_tiered`, `inbox_commands`, `messaging` |
| Commands and records | `jsonl`, `message`, `learnings`, `relevance`, `assignment` |
| Numbers | `load`, `metrics`, `throughput`, `dashboard`, `dashboard_text`, `ratio` |
| Launching | `sessions`, `launch_state`, `launch_script`, `launcher`, `spawn`, `mcp`, `shell` |
| Layout | `layout`, `layout_laws` |
| Projects | `init`, `run_export`, `paths` |
| Merging | `merge::git_ops`, `merge::lock`, `merge::operations`, `merge::branch`, `merge::multi_repo`, `merge::scope`, `merge::verification`, `merge::completion` |
| Foundations | `text`, `words`, `digits`, `order`, `ranking`, `clock`, `team` |

Work that alternates between decisions and the outside world is written as a
machine: a state says which request is open, and the reply to it leads to the
next state. Whoever drives a machine performs the requests.
