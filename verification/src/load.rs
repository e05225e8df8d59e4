//! Team load: the share of members at work, and its history.
//!
//! A load is a number that only callers calculate with, so everything here is
//! written for any type of it.

use vstd::prelude::*;
use vstd::string::*;

use crate::text;
use crate::text::{copy, decimal_usize, same};

verus! {

/// The window of the load graph, in seconds.
pub const LOAD_GRAPH_WINDOW_SECONDS: u64 = 3_600;

/// The width of the load graph, in characters.
pub const LOAD_GRAPH_WIDTH: usize = 30;

/// What the load counts of a row of the team's status.
#[derive(Clone, Debug)]
pub struct TeamStatusRow {
    pub role_type: String,
    pub state: String,
}

/// The load at one time.
#[derive(Clone, Copy, Debug)]
pub struct TeamLoadSnapshot<L> {
    pub timestamp: u64,
    pub total_members: usize,
    pub working_members: usize,
    pub load: L,
    pub session_running: bool,
}

/// What the event log may say about the load.
#[derive(Clone, Debug)]
pub struct LoadEvent<L> {
    pub event: String,
    pub ts: u64,
    pub load: Option<L>,
    pub working_members: Option<u32>,
    pub total_members: Option<u32>,
    pub session_running: Option<bool>,
}

// ---------------------------------------------------------------------------
// Sampling

/// The states of a member at work.
pub open spec fn is_active(row: TeamStatusRow) -> bool {
    row.state@ == "working"@ || row.state@ == "triaging"@ || row.state@ == "reviewing"@
}

/// Tells whether a row counts as load.
pub fn counts_as_active_load(row: &TeamStatusRow) -> (r: bool)
    ensures
        r == is_active(*row),
{
    same(row.state.as_str(), "working") || same(row.state.as_str(), "triaging") || same(
        row.state.as_str(),
        "reviewing",
    )
}

/// The rows of members other than the user.
pub open spec fn member_rows(rows: Seq<TeamStatusRow>) -> nat
    decreases rows.len(),
{
    if rows.len() == 0 {
        0
    } else {
        member_rows(rows.drop_last()) + (if rows.last().role_type@ != "User"@ {
            1nat
        } else {
            0nat
        })
    }
}

/// The rows of members other than the user that are at work.
pub open spec fn active_rows(rows: Seq<TeamStatusRow>) -> nat
    decreases rows.len(),
{
    if rows.len() == 0 {
        0
    } else {
        active_rows(rows.drop_last()) + (if rows.last().role_type@ != "User"@ && is_active(
            rows.last(),
        ) {
            1nat
        } else {
            0nat
        })
    }
}

/// The name of a team's session.
pub fn session_name(team: &str) -> (r: String)
    ensures
        r@ == "batty-"@ + team@,
{
    copy("batty-").concat(team)
}

/// Takes a sample of the load: `share` tells the load for how many of how
/// many members work; without members it is `idle`.
pub fn capture_team_load<L, F: Fn(usize, usize) -> L>(
    rows: &Vec<TeamStatusRow>,
    session_running: bool,
    now: u64,
    idle: L,
    share: &F,
) -> (r: TeamLoadSnapshot<L>)
    requires
        forall|a: usize, b: usize|
            a <= b && b > 0 ==> #[trigger] call_requires(*share, (a, b)),
    ensures
        r.timestamp == now,
        r.session_running == session_running,
        r.total_members == member_rows(rows@),
        r.working_members == active_rows(rows@),
        r.working_members <= r.total_members,
        r.total_members == 0 ==> r.load == idle,
        r.total_members > 0 ==> call_ensures(
            *share,
            (r.working_members, r.total_members),
            r.load,
        ),
{
    let mut total_members: usize = 0;
    let mut working_members: usize = 0;
    let mut i: usize = 0;
    while i < rows.len()
        invariant
            i <= rows@.len(),
            working_members <= total_members <= i,
            total_members == member_rows(rows@.take(i as int)),
            working_members == active_rows(rows@.take(i as int)),
        decreases rows@.len() - i,
    {
        assert(rows@.take(i + 1).drop_last() == rows@.take(i as int));
        if !same(rows[i].role_type.as_str(), "User") {
            total_members += 1;
            if counts_as_active_load(&rows[i]) {
                working_members += 1;
            }
        }
        i += 1;
    }
    assert(rows@.take(i as int) == rows@);
    let load: L = if total_members == 0 {
        idle
    } else {
        share(working_members, total_members)
    };
    TeamLoadSnapshot { timestamp: now, total_members, working_members, load, session_running }
}

// ---------------------------------------------------------------------------
// History

/// The sample that an event holds, where it holds one.
pub open spec fn sample_of<L>(e: LoadEvent<L>) -> Option<TeamLoadSnapshot<L>> {
    if e.event@ == "load_snapshot"@ && e.load is Some && e.working_members is Some
        && e.total_members is Some {
        Some(
            TeamLoadSnapshot {
                timestamp: e.ts,
                total_members: e.total_members->Some_0 as usize,
                working_members: e.working_members->Some_0 as usize,
                load: e.load->Some_0,
                session_running: e.session_running == Some(true),
            },
        )
    } else {
        None
    }
}

/// The samples that some events hold, in order.
pub open spec fn samples_of<L>(events: Seq<LoadEvent<L>>) -> Seq<TeamLoadSnapshot<L>>
    decreases events.len(),
{
    if events.len() == 0 {
        Seq::empty()
    } else {
        match sample_of(events.last()) {
            Some(s) => samples_of(events.drop_last()).push(s),
            None => samples_of(events.drop_last()),
        }
    }
}

/// Reads the history of the load from the event log. Other events, and those
/// that lack a number, are skipped.
pub fn read_team_load_history<L: Copy>(events: &Vec<LoadEvent<L>>) -> (r: Vec<
    TeamLoadSnapshot<L>,
>)
    ensures
        r@ == samples_of(events@),
{
    let mut history: Vec<TeamLoadSnapshot<L>> = Vec::new();
    let mut i: usize = 0;
    while i < events.len()
        invariant
            i <= events@.len(),
            history@ == samples_of(events@.take(i as int)),
        decreases events@.len() - i,
    {
        assert(events@.take(i + 1).drop_last() == events@.take(i as int));
        let e: &LoadEvent<L> = &events[i];
        if same(e.event.as_str(), "load_snapshot") {
            if let Some(load) = e.load {
                if let Some(working) = e.working_members {
                    if let Some(total) = e.total_members {
                        let session_running: bool = match e.session_running {
                            Some(b) => b,
                            None => false,
                        };
                        history.push(
                            TeamLoadSnapshot {
                                timestamp: e.ts,
                                total_members: total as usize,
                                working_members: working as usize,
                                load,
                                session_running,
                            },
                        );
                    }
                }
            }
        }
        i += 1;
    }
    assert(events@.take(i as int) == events@);
    history
}

/// The loads of the samples of a span: from `start`, up to before `end`.
pub open spec fn loads_between<L>(
    samples: Seq<TeamLoadSnapshot<L>>,
    start: int,
    end: int,
) -> Seq<L>
    decreases samples.len(),
{
    if samples.len() == 0 {
        Seq::empty()
    } else {
        let rest = loads_between(samples.drop_last(), start, end);
        if start <= samples.last().timestamp && samples.last().timestamp < end {
            rest.push(samples.last().load)
        } else {
            rest
        }
    }
}

fn loads_in_span<L: Copy>(samples: &Vec<TeamLoadSnapshot<L>>, start: u64, last: u64) -> (r: Vec<L>)
    ensures
        r@ == loads_between(samples@, start as int, last + 1),
{
    let mut out: Vec<L> = Vec::new();
    let mut i: usize = 0;
    while i < samples.len()
        invariant
            i <= samples@.len(),
            out@ == loads_between(samples@.take(i as int), start as int, last + 1),
        decreases samples@.len() - i,
    {
        assert(samples@.take(i + 1).drop_last() == samples@.take(i as int));
        if samples[i].timestamp >= start && samples[i].timestamp <= last {
            out.push(samples[i].load);
        }
        i += 1;
    }
    assert(samples@.take(i as int) == samples@);
    out
}

/// `mean` may give this value for these loads.
pub open spec fn is_mean<L, M: Fn(Vec<L>) -> L>(mean: M, loads: Seq<L>, value: L) -> bool {
    exists|v: Vec<L>| v@ == loads && #[trigger] call_ensures(mean, (v,), value)
}

/// The start of a window that ends at `now`.
pub open spec fn window_start(now: u64, seconds: u64) -> int {
    if now >= seconds {
        now - seconds
    } else {
        0
    }
}

/// The mean load of the last `window_seconds`, where there are samples.
pub fn average_load<L: Copy, M: Fn(Vec<L>) -> L>(
    samples: &Vec<TeamLoadSnapshot<L>>,
    now: u64,
    window_seconds: u64,
    mean: &M,
) -> (r: Option<L>)
    requires
        forall|v: Vec<L>| v@.len() > 0 ==> #[trigger] call_requires(*mean, (v,)),
    ensures
        match r {
            Some(value) => loads_between(
                samples@,
                window_start(now, window_seconds),
                now + 1,
            ).len() > 0 && is_mean(
                *mean,
                loads_between(samples@, window_start(now, window_seconds), now + 1),
                value,
            ),
            None => loads_between(
                samples@,
                window_start(now, window_seconds),
                now + 1,
            ).len() == 0,
        },
{
    let cutoff: u64 = now.saturating_sub(window_seconds);
    let values: Vec<L> = loads_in_span(samples, cutoff, now);
    if values.len() == 0 {
        return None;
    }
    let ghost given = values;
    let value: L = mean(values);
    assert(call_ensures(*mean, (given,), value));
    Some(value)
}

// ---------------------------------------------------------------------------
// Graph

/// The character for a level of load.
pub open spec fn level_char(level: usize) -> char {
    if level == 0 {
        ' '
    } else if level == 1 {
        '.'
    } else if level == 2 {
        ':'
    } else if level == 3 {
        '='
    } else if level == 4 {
        '#'
    } else {
        '@'
    }
}

/// The character for a level of load, in fifths.
pub fn load_point_char(level: usize) -> (r: char)
    ensures
        r == level_char(level),
{
    match level {
        0 => ' ',
        1 => '.',
        2 => ':',
        3 => '=',
        4 => '#',
        _ => '@',
    }
}

/// Where a bucket of the graph starts.
pub open spec fn bucket_start(now: u64, index: int) -> int {
    window_start(now, 3600) + index * 120
}

/// Before where a bucket of the graph ends.
pub open spec fn bucket_end(now: u64, index: int) -> int {
    if index == 29 {
        now + 1
    } else {
        bucket_start(now, index) + 120
    }
}

/// The loads of a bucket.
pub open spec fn bucket<L>(samples: Seq<TeamLoadSnapshot<L>>, now: u64, index: int) -> Seq<L> {
    loads_between(samples, bucket_start(now, index), bucket_end(now, index))
}

/// These are values for the first buckets: the mean of the bucket, or the
/// value before where it is empty.
pub open spec fn are_values<L, M: Fn(Vec<L>) -> L>(
    samples: Seq<TeamLoadSnapshot<L>>,
    now: u64,
    zero: L,
    mean: M,
    values: Seq<L>,
) -> bool {
    forall|k: int|
        0 <= k < values.len() ==> if bucket(samples, now, k).len() == 0 {
            #[trigger] values[k] == (if k == 0 {
                zero
            } else {
                values[k - 1]
            })
        } else {
            is_mean(mean, bucket(samples, now, k), values[k])
        }
}

/// This character stands for this load.
pub open spec fn is_point<L, V: Fn(L) -> usize>(level: V, value: L, c: char) -> bool {
    exists|n: usize| #[trigger] call_ensures(level, (value,), n) && c == level_char(n)
}

/// This is a line of one character for each of the values.
pub open spec fn is_line<L, V: Fn(L) -> usize>(level: V, values: Seq<L>, line: Seq<char>) -> bool {
    &&& line.len() == values.len()
    &&& forall|k: int| 0 <= k < values.len() ==> is_point(level, values[k], #[trigger] line[k])
}

/// This is the load graph.
pub open spec fn is_graph<L, M: Fn(Vec<L>) -> L, V: Fn(L) -> usize>(
    samples: Seq<TeamLoadSnapshot<L>>,
    now: u64,
    zero: L,
    mean: M,
    level: V,
    line: Seq<char>,
) -> bool {
    exists|values: Seq<L>|
        {
            &&& values.len() == 30
            &&& #[trigger] are_values(samples, now, zero, mean, values)
            &&& is_line(level, values, line)
        }
}

/// Draws the load of the last hour: one character for every two minutes. An
/// empty span shows the load before it, at first `zero`. `level` tells how
/// many fifths a load is.
pub fn render_load_graph<L: Copy, M: Fn(Vec<L>) -> L, V: Fn(L) -> usize>(
    samples: &Vec<TeamLoadSnapshot<L>>,
    now: u64,
    zero: L,
    mean: &M,
    level: &V,
) -> (r: String)
    requires
        now < u64::MAX,
        forall|v: Vec<L>| v@.len() > 0 ==> #[trigger] call_requires(*mean, (v,)),
        forall|l: L| #[trigger] call_requires(*level, (l,)),
    ensures
        samples@.len() == 0 ==> r@ == "(no historical load data yet)"@,
        samples@.len() > 0 ==> is_graph(samples@, now, zero, *mean, *level, r@),
{
    if samples.len() == 0 {
        return copy("(no historical load data yet)");
    }
    let start: u64 = now.saturating_sub(LOAD_GRAPH_WINDOW_SECONDS);
    let mut history: String = String::new();
    let mut previous: L = zero;
    let ghost mut values: Seq<L> = Seq::empty();
    let mut index: usize = 0;
    while index < LOAD_GRAPH_WIDTH
        invariant
            index <= 30,
            now < u64::MAX,
            start == window_start(now, 3600),
            forall|v: Vec<L>| v@.len() > 0 ==> #[trigger] call_requires(*mean, (v,)),
            forall|l: L| #[trigger] call_requires(*level, (l,)),
            values.len() == index,
            are_values(samples@, now, zero, *mean, values),
            is_line(*level, values, history@),
            previous == (if index == 0 {
                zero
            } else {
                values[index - 1]
            }),
        decreases 30 - index,
    {
        let first: u64 = start + index as u64 * 120;
        let last: u64 = if index == 29 {
            now
        } else {
            first + 119
        };
        let loads: Vec<L> = loads_in_span(samples, first, last);
        assert(loads@ == bucket(samples@, now, index as int));
        let value: L = if loads.len() == 0 {
            previous
        } else {
            let ghost given = loads;
            let m: L = mean(loads);
            assert(call_ensures(*mean, (given,), m));
            m
        };
        let n: usize = level(value);
        let ghost before = values;
        let ghost line = history@;
        proof {
            values = values.push(value);
            assert forall|k: int| 0 <= k < values.len() implies if bucket(
                samples@,
                now,
                k,
            ).len() == 0 {
                #[trigger] values[k] == (if k == 0 {
                    zero
                } else {
                    values[k - 1]
                })
            } else {
                is_mean(*mean, bucket(samples@, now, k), values[k])
            } by {
                if k < index {
                    assert(values[k] == before[k]);
                    if k > 0 {
                        assert(values[k - 1] == before[k - 1]);
                    }
                }
            }
        }
        history.push(load_point_char(n));
        proof {
            assert(is_point(*level, value, level_char(n)));
            assert forall|k: int| 0 <= k < values.len() implies is_point(
                *level,
                values[k],
                #[trigger] history@[k],
            ) by {
                if k < index {
                    assert(history@[k] == line[k]);
                    assert(values[k] == before[k]);
                }
            }
        }
        previous = value;
        index += 1;
    }
    history
}

// ---------------------------------------------------------------------------
// Report

fn or_na(avg: &Option<String>) -> (r: String)
    ensures
        r@ == shown(*avg),
{
    match avg {
        Some(s) => copy(s.as_str()).concat("%"),
        None => copy("n/a"),
    }
}

/// A mean as shown: a percentage, or `n/a`.
pub open spec fn shown(avg: Option<String>) -> Seq<char> {
    match avg {
        Some(s) => s@ + "%"@,
        None => "n/a"@,
    }
}

/// Reports the load. The loads come in as percentages, written with one
/// digit after the point.
pub fn show_load(
    current: &str,
    working_members: usize,
    total_members: usize,
    session_running: bool,
    averages: &(Option<String>, Option<String>, Option<String>),
    graph: &str,
) -> (r: String)
    ensures
        r@ == "Current load: "@ + current@ + "% ("@ + text::decimal(working_members as nat)
            + " / "@ + text::decimal(
            if total_members == 0 {
                1
            } else {
                total_members as nat
            },
        ) + " members working)\nSession: "@ + (if session_running {
            "running"@
        } else {
            "stopped"@
        }) + "\n10m avg: "@ + shown(averages.0) + "\n30m avg: "@ + shown(averages.1)
            + "\n60m avg: "@ + shown(averages.2) + "\nLoad graph (1h):\n"@ + graph@ + "\n"@,
{
    let total: usize = if total_members == 0 {
        1
    } else {
        total_members
    };
    let session: String = if session_running {
        copy("running")
    } else {
        copy("stopped")
    };
    copy("Current load: ").concat(current).concat("% (").concat(
        decimal_usize(working_members).as_str(),
    ).concat(" / ").concat(decimal_usize(total).as_str()).concat(
        " members working)\nSession: ",
    ).concat(session.as_str()).concat("\n10m avg: ").concat(or_na(&averages.0).as_str()).concat(
        "\n30m avg: ",
    ).concat(or_na(&averages.1).as_str()).concat("\n60m avg: ").concat(
        or_na(&averages.2).as_str(),
    ).concat("\nLoad graph (1h):\n").concat(graph).concat("\n")
}

// ---------------------------------------------------------------------------
// Laws

/// Every moment of the last hour lies in exactly one bucket of the graph, and
/// no other moment lies in one.
pub proof fn law_buckets_cover_the_hour(now: u64, t: int)
    requires
        now >= 3600,
    ensures
        window_start(now, 3600) <= t <= now <==> exists|k: int|
            0 <= k < 30 && #[trigger] bucket_start(now, k) <= t && t < bucket_end(now, k),
        forall|a: int, b: int|
            0 <= a < b < 30 && #[trigger] bucket_start(now, a) <= t && t < bucket_end(now, a)
                ==> t < #[trigger] bucket_start(now, b),
{
    if window_start(now, 3600) <= t <= now {
        let k = if (t - window_start(now, 3600)) / 120 < 30 {
            (t - window_start(now, 3600)) / 120
        } else {
            29
        };
        assert(bucket_start(now, k) <= t && t < bucket_end(now, k));
    }
}

} // verus!
