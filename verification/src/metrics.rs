//! Metrics on tasks: cycle and lead times, throughput, and what is in
//! progress.
//!
//! Averages are numbers that only callers calculate with, so everything here
//! is written for any type of them.

use vstd::prelude::*;

use crate::order;
use crate::order::order_by;
use crate::paths;
use crate::paths::joined;
use crate::text;
use crate::text::{copy, same, sorted_distinct, to_lower, trimmed_str};

verus! {

/// A moment: seconds since the epoch, and the nanoseconds since then. In a
/// leap second the nanoseconds reach beyond a thousand million.
#[derive(Clone, Copy, Debug, PartialEq, Eq, Structural)]
pub struct Moment {
    pub secs: i64,
    pub nanos: u32,
}

/// How long a task took.
#[derive(Clone, Debug)]
pub struct TaskCycleTimeRecord {
    pub task_id: u32,
    pub title: String,
    pub engineer: Option<String>,
    pub priority: String,
    pub status: String,
    pub created_at: Option<i64>,
    pub started_at: Option<i64>,
    pub completed_at: Option<i64>,
    pub cycle_time_minutes: Option<i64>,
    pub lead_time_minutes: Option<i64>,
}

/// What is read of a task of the board.
#[derive(Clone, Debug)]
pub struct BoardTask {
    pub id: u32,
    pub title: String,
    pub claimed_by: Option<String>,
    pub priority: String,
    pub status: String,
    pub created: Option<Moment>,
    pub started: Option<Moment>,
    pub completed: Option<Moment>,
}

/// The average cycle time of a priority.
#[derive(Clone, Debug)]
pub struct PriorityCycleTimeSummary<A> {
    pub priority: String,
    pub average_cycle_time_minutes: A,
    pub completed_tasks: usize,
}

/// What an engineer completed.
#[derive(Clone, Debug)]
pub struct EngineerThroughputSummary<A> {
    pub engineer: String,
    pub completed_tasks: usize,
    pub average_cycle_time_minutes: Option<A>,
    pub average_lead_time_minutes: Option<A>,
}

/// How many tasks were completed in an hour.
#[derive(Clone, Copy, Debug, PartialEq, Eq, Structural)]
pub struct HourlyCompletionCount {
    pub hour_start: i64,
    pub completed_tasks: i64,
}

/// A task in progress.
#[derive(Clone, Debug, PartialEq)]
pub struct InProgressTaskSummary {
    pub task_id: u32,
    pub title: String,
    pub engineer: Option<String>,
    pub priority: String,
    pub minutes_in_progress: i64,
}

// ---------------------------------------------------------------------------
// Spans

/// What chrono's `DateTime::signed_duration_since` gives between two moments:
/// the whole seconds and the nanoseconds beyond them, both with the sign of
/// the span. There is none where `DateTime::from_timestamp` does not know a
/// moment.
pub uninterp spec fn span_between(
    start_secs: i64,
    start_nanos: u32,
    end_secs: i64,
    end_nanos: u32,
) -> Option<(i64, i32)>;

/// A moment in an ordinary second, within a quarter of a million years.
pub open spec fn is_ordinary(m: Moment) -> bool {
    &&& m.nanos < 1_000_000_000
    &&& -8_000_000_000_000 <= m.secs <= 8_000_000_000_000
}

/// The span between two moments, by chrono: `DateTime::from_timestamp` for
/// each, then `signed_duration_since`, `num_seconds` and `subsec_nanos`. The
/// contract says that the span depends on the two moments alone, and that
/// between ordinary moments it is their difference, cut towards zero. How
/// leap seconds count is left unsaid.
#[verifier::external_body]
pub(crate) fn time_span(start: &Moment, end: &Moment) -> (r: Option<(i64, i32)>)
    ensures
        r == span_between(start.secs, start.nanos, end.secs, end.nanos),
        is_ordinary(*start) && is_ordinary(*end) ==> r is Some && r->Some_0.0 * 1_000_000_000
            + r->Some_0.1 == (end.secs - start.secs) * 1_000_000_000 + end.nanos - start.nanos
            && -1_000_000_000 < r->Some_0.1 && r->Some_0.1 < 1_000_000_000 && (r->Some_0.0 > 0
            ==> r->Some_0.1 >= 0) && (r->Some_0.0 < 0 ==> r->Some_0.1 <= 0),
{
    let from = chrono::DateTime::from_timestamp(start.secs, start.nanos)?;
    let to = chrono::DateTime::from_timestamp(end.secs, end.nanos)?;
    let span = to.signed_duration_since(from);
    Some((span.num_seconds(), span.subsec_nanos()))
}

/// The whole minutes of a span that does not run backwards.
pub open spec fn forward_minutes(span: Option<(i64, i32)>) -> Option<i64> {
    match span {
        Some((secs, nanos)) => if secs > 0 || (secs == 0 && nanos >= 0) {
            Some((secs / 60) as i64)
        } else {
            None
        },
        None => None,
    }
}

/// The whole minutes of a span that does not run backwards.
pub fn minutes_of(span: Option<(i64, i32)>) -> (r: Option<i64>)
    ensures
        r == forward_minutes(span),
{
    match span {
        Some((secs, nanos)) => {
            if secs > 0 || (secs == 0 && nanos >= 0) {
                Some(secs / 60)
            } else {
                None
            }
        },
        None => None,
    }
}

/// The span between two moments, where both are known.
pub open spec fn span_of(start: Option<Moment>, end: Option<Moment>) -> Option<(i64, i32)> {
    match (start, end) {
        (Some(s), Some(e)) => span_between(s.secs, s.nanos, e.secs, e.nanos),
        _ => None,
    }
}

/// The whole minutes from `start` to `end`, where both are known and in this
/// order.
pub fn duration_minutes(start: &Option<Moment>, end: &Option<Moment>) -> (r: Option<i64>)
    ensures
        r == forward_minutes(span_of(*start, *end)),
        start is Some && end is Some && is_ordinary(start->Some_0) && is_ordinary(end->Some_0)
            ==> r == ordinary_minutes(start->Some_0, end->Some_0),
{
    match (start, end) {
        (Some(s), Some(e)) => {
            let span: Option<(i64, i32)> = time_span(s, e);
            minutes_of(span)
        },
        _ => None,
    }
}

/// The whole minutes between ordinary moments.
pub open spec fn ordinary_minutes(start: Moment, end: Moment) -> Option<i64> {
    let nanos = (end.secs - start.secs) * 1_000_000_000 + end.nanos - start.nanos;
    if nanos >= 0 {
        Some((nanos / 60_000_000_000) as i64)
    } else {
        None
    }
}

// ---------------------------------------------------------------------------
// Records

/// A priority without white space at its ends, in lower case.
pub open spec fn priority_name(priority: Seq<char>) -> Seq<char> {
    let t = text::trim(priority);
    if t.len() == 0 {
        "unspecified"@
    } else {
        text::lowercase(t)
    }
}

/// A priority as metrics name it.
pub fn normalized_priority(priority: &str) -> (r: String)
    ensures
        r@ == priority_name(priority@),
{
    let t: String = trimmed_str(priority);
    if t.as_str().unicode_len() == 0 {
        copy("unspecified")
    } else {
        to_lower(t.as_str())
    }
}

/// The seconds of a moment.
pub open spec fn secs_of(m: Option<Moment>) -> Option<i64> {
    match m {
        Some(m) => Some(m.secs),
        None => None,
    }
}

fn seconds(m: &Option<Moment>) -> (r: Option<i64>)
    ensures
        r == secs_of(*m),
{
    match m {
        Some(m) => Some(m.secs),
        None => None,
    }
}

pub(crate) fn clone_name(s: &Option<String>) -> (r: Option<String>)
    ensures
        r == *s,
{
    match s {
        Some(x) => Some(x.clone()),
        None => None,
    }
}

/// This is the record of a task with these times.
pub open spec fn is_record(
    r: TaskCycleTimeRecord,
    task_id: u32,
    title: Seq<char>,
    engineer: Option<Seq<char>>,
    priority: Seq<char>,
    status: Seq<char>,
    created: Option<Moment>,
    started: Option<Moment>,
    completed: Option<Moment>,
) -> bool {
    &&& r.task_id == task_id
    &&& r.title@ == title
    &&& paths::opt_view(r.engineer) == engineer
    &&& r.priority@ == priority
    &&& r.status@ == status
    &&& r.created_at == secs_of(created)
    &&& r.started_at == secs_of(started)
    &&& r.completed_at == secs_of(completed)
    &&& r.cycle_time_minutes == forward_minutes(span_of(started, completed))
    &&& r.lead_time_minutes == forward_minutes(span_of(created, completed))
}

/// The record of a task: the cycle time runs from its start, the lead time
/// from its creation, both to its completion.
pub fn build_task_cycle_time_record(
    task_id: u32,
    title: &str,
    engineer: &Option<String>,
    priority: &str,
    status: &str,
    created_at: &Option<Moment>,
    started_at: &Option<Moment>,
    completed_at: &Option<Moment>,
) -> (r: TaskCycleTimeRecord)
    ensures
        is_record(
            r,
            task_id,
            title@,
            paths::opt_view(*engineer),
            priority@,
            status@,
            *created_at,
            *started_at,
            *completed_at,
        ),
{
    TaskCycleTimeRecord {
        task_id,
        title: copy(title),
        engineer: clone_name(engineer),
        priority: copy(priority),
        status: copy(status),
        created_at: seconds(created_at),
        started_at: seconds(started_at),
        completed_at: seconds(completed_at),
        cycle_time_minutes: duration_minutes(started_at, completed_at),
        lead_time_minutes: duration_minutes(created_at, completed_at),
    }
}

/// The directories of a board that hold tasks, of those that exist.
pub fn task_data_dirs(board_dir: &str, has_tasks: bool, has_archive: bool) -> (r: Vec<String>)
    ensures
        text::views(r@) == (if has_tasks {
            seq![paths::join_path(board_dir@, "tasks"@)]
        } else {
            Seq::empty()
        }) + (if has_archive {
            seq![paths::join_path(board_dir@, "archive"@)]
        } else {
            Seq::empty()
        }),
{
    let mut out: Vec<String> = Vec::new();
    if has_tasks {
        out.push(joined(board_dir, "tasks"));
    }
    if has_archive {
        out.push(joined(board_dir, "archive"));
    }
    assert(text::views(out@) =~= (if has_tasks {
        seq![paths::join_path(board_dir@, "tasks"@)]
    } else {
        Seq::<Seq<char>>::empty()
    }) + (if has_archive {
        seq![paths::join_path(board_dir@, "archive"@)]
    } else {
        Seq::<Seq<char>>::empty()
    }));
    out
}

/// The numbers of some tasks, to sort by.
pub open spec fn id_keys(tasks: Seq<BoardTask>) -> Seq<(u64, u64)> {
    Seq::new(tasks.len(), |i: int| (tasks[i].id as u64, 0u64))
}

/// The tasks in the order of their numbers.
pub open spec fn by_id(tasks: Seq<BoardTask>) -> Seq<BoardTask> {
    order::pick(tasks, order::stable_order(id_keys(tasks)))
}

/// The records of all tasks of a board, in the order of their numbers.
pub fn collect_task_cycle_time_records(tasks: &Vec<BoardTask>) -> (r: Vec<TaskCycleTimeRecord>)
    ensures
        r@.len() == tasks@.len(),
        forall|i: int|
            0 <= i < r@.len() ==> is_record(
                #[trigger] r@[i],
                by_id(tasks@)[i].id,
                by_id(tasks@)[i].title@,
                paths::opt_view(by_id(tasks@)[i].claimed_by),
                priority_name(by_id(tasks@)[i].priority@),
                by_id(tasks@)[i].status@,
                by_id(tasks@)[i].created,
                by_id(tasks@)[i].started,
                by_id(tasks@)[i].completed,
            ),
{
    let mut keys: Vec<(u64, u64)> = Vec::new();
    let mut i: usize = 0;
    while i < tasks.len()
        invariant
            i <= tasks@.len(),
            keys@ == id_keys(tasks@).take(i as int),
        decreases tasks@.len() - i,
    {
        keys.push((tasks[i].id as u64, 0));
        i += 1;
        assert(id_keys(tasks@).take(i as int) == id_keys(tasks@).take(i - 1).push(
            id_keys(tasks@)[i - 1],
        ));
    }
    assert(id_keys(tasks@).take(i as int) == id_keys(tasks@));
    let order: Vec<usize> = order_by(&keys);
    let ghost sorted = by_id(tasks@);
    let mut out: Vec<TaskCycleTimeRecord> = Vec::new();
    let mut k: usize = 0;
    while k < order.len()
        invariant
            k <= order@.len(),
            order@.len() == tasks@.len(),
            sorted == order::pick(tasks@, order@),
            forall|j: int| 0 <= j < order@.len() ==> (#[trigger] order@[j]) < tasks@.len(),
            out@.len() == k,
            forall|j: int|
                0 <= j < k ==> is_record(
                    #[trigger] out@[j],
                    sorted[j].id,
                    sorted[j].title@,
                    paths::opt_view(sorted[j].claimed_by),
                    priority_name(sorted[j].priority@),
                    sorted[j].status@,
                    sorted[j].created,
                    sorted[j].started,
                    sorted[j].completed,
                ),
        decreases order@.len() - k,
    {
        let t: &BoardTask = &tasks[order[k]];
        assert(*t == sorted[k as int]);
        let priority: String = normalized_priority(t.priority.as_str());
        out.push(
            build_task_cycle_time_record(
                t.id,
                t.title.as_str(),
                &t.claimed_by,
                priority.as_str(),
                t.status.as_str(),
                &t.created,
                &t.started,
                &t.completed,
            ),
        );
        k += 1;
    }
    out
}

// ---------------------------------------------------------------------------
// Averages

/// `mean` may give this average for this sum over so many.
pub open spec fn is_average<A, M: Fn(i64, usize) -> A>(
    mean: M,
    sum: int,
    count: nat,
    average: A,
) -> bool {
    call_ensures(mean, (sum as i64, count as usize), average)
}

/// The record counts for this priority.
pub open spec fn has_priority(r: TaskCycleTimeRecord, priority: Seq<char>) -> bool {
    r.cycle_time_minutes is Some && priority_name(r.priority@) == priority
}

/// The sum of the cycle times of a priority.
pub open spec fn priority_sum(rs: Seq<TaskCycleTimeRecord>, priority: Seq<char>) -> int
    decreases rs.len(),
{
    if rs.len() == 0 {
        0
    } else {
        priority_sum(rs.drop_last(), priority) + (if has_priority(rs.last(), priority) {
            rs.last().cycle_time_minutes->Some_0 as int
        } else {
            0
        })
    }
}

/// How many records count for a priority.
pub open spec fn priority_count(rs: Seq<TaskCycleTimeRecord>, priority: Seq<char>) -> nat
    decreases rs.len(),
{
    if rs.len() == 0 {
        0
    } else {
        priority_count(rs.drop_last(), priority) + (if has_priority(rs.last(), priority) {
            1nat
        } else {
            0nat
        })
    }
}

/// Every sum that comes up fits.
pub open spec fn priority_sums_fit(rs: Seq<TaskCycleTimeRecord>) -> bool {
    forall|n: int, priority: Seq<char>|
        0 <= n <= rs.len() ==> i64::MIN <= #[trigger] priority_sum(rs.take(n), priority)
            <= i64::MAX
}

/// Some record counts for this priority.
pub open spec fn is_priority(rs: Seq<TaskCycleTimeRecord>, priority: Seq<char>) -> bool {
    exists|i: int| 0 <= i < rs.len() && has_priority(#[trigger] rs[i], priority)
}

/// These are the averages by priority: one for each priority of a record with
/// a cycle time, in the order of a dictionary.
pub open spec fn are_priority_averages<A, M: Fn(i64, usize) -> A>(
    rs: Seq<TaskCycleTimeRecord>,
    mean: M,
    summaries: Seq<PriorityCycleTimeSummary<A>>,
) -> bool {
    &&& forall|i: int, j: int|
        0 <= i < j < summaries.len() ==> text::lex_lt(
            (#[trigger] summaries[i]).priority@,
            (#[trigger] summaries[j]).priority@,
        )
    &&& forall|i: int|
        0 <= i < summaries.len() ==> is_priority(rs, (#[trigger] summaries[i]).priority@)
            && summaries[i].completed_tasks == priority_count(rs, summaries[i].priority@)
            && is_average(
            mean,
            priority_sum(rs, summaries[i].priority@),
            priority_count(rs, summaries[i].priority@),
            summaries[i].average_cycle_time_minutes,
        )
    &&& forall|p: Seq<char>| #[trigger]
        is_priority(rs, p) ==> exists|i: int|
            0 <= i < summaries.len() && (#[trigger] summaries[i]).priority@ == p
}

fn priority_totals(rs: &Vec<TaskCycleTimeRecord>, priority: &str) -> (r: (i64, usize))
    requires
        priority_sums_fit(rs@),
    ensures
        r.0 == priority_sum(rs@, priority@),
        r.1 == priority_count(rs@, priority@),
{
    let mut sum: i64 = 0;
    let mut count: usize = 0;
    let mut i: usize = 0;
    while i < rs.len()
        invariant
            i <= rs@.len(),
            priority_sums_fit(rs@),
            count <= i,
            sum == priority_sum(rs@.take(i as int), priority@),
            count == priority_count(rs@.take(i as int), priority@),
        decreases rs@.len() - i,
    {
        assert(rs@.take(i + 1).drop_last() == rs@.take(i as int));
        assert(i64::MIN <= priority_sum(rs@.take(i + 1), priority@) <= i64::MAX);
        if let Some(minutes) = rs[i].cycle_time_minutes {
            let name: String = normalized_priority(rs[i].priority.as_str());
            if same(name.as_str(), priority) {
                sum += minutes;
                count += 1;
            }
        }
        i += 1;
    }
    assert(rs@.take(i as int) == rs@);
    (sum, count)
}

proof fn lemma_priority_counted(rs: Seq<TaskCycleTimeRecord>, priority: Seq<char>, i: int)
    requires
        0 <= i < rs.len(),
        has_priority(rs[i], priority),
    ensures
        priority_count(rs, priority) > 0,
    decreases rs.len(),
{
    if i < rs.len() - 1 {
        assert(rs.drop_last()[i] == rs[i]);
        lemma_priority_counted(rs.drop_last(), priority, i);
    }
}

/// The average cycle time of each priority: `mean` takes a sum and a count.
pub fn average_cycle_time_by_priority<A, M: Fn(i64, usize) -> A>(
    records: &Vec<TaskCycleTimeRecord>,
    mean: &M,
) -> (r: Vec<PriorityCycleTimeSummary<A>>)
    requires
        priority_sums_fit(records@),
        forall|s: i64, n: usize| n > 0 ==> #[trigger] call_requires(*mean, (s, n)),
    ensures
        are_priority_averages(records@, *mean, r@),
{
    let mut names: Vec<String> = Vec::new();
    let mut i: usize = 0;
    while i < records.len()
        invariant
            i <= records@.len(),
            forall|p: Seq<char>| #[trigger]
                text::views(names@).contains(p) <==> is_priority(records@.take(i as int), p),
        decreases records@.len() - i,
    {
        let ghost before = names@;
        let ghost r0 = records@.take(i as int);
        let ghost r1 = records@.take(i + 1);
        let ghost name_of = priority_name(records@[i as int].priority@);
        if records[i].cycle_time_minutes.is_some() {
            let name: String = normalized_priority(records[i].priority.as_str());
            names.push(name);
            assert(text::views(names@) == text::views(before).push(name_of));
        }
        proof {
            let v0 = text::views(before);
            let v1 = text::views(names@);
            assert forall|p: Seq<char>| #[trigger] v1.contains(p) <==> is_priority(r1, p) by {
                assert(v0.contains(p) <==> is_priority(r0, p));
                if v1.contains(p) {
                    let k = choose|k: int| 0 <= k < v1.len() && v1[k] == p;
                    if k < v0.len() {
                        assert(v0[k] == p);
                        let m = choose|m: int| 0 <= m < r0.len() && has_priority(
                            #[trigger] r0[m],
                            p,
                        );
                        assert(has_priority(r1[m], p));
                    } else {
                        assert(has_priority(r1[i as int], p));
                    }
                }
                if is_priority(r1, p) {
                    let m = choose|m: int| 0 <= m < r1.len() && has_priority(#[trigger] r1[m], p);
                    if m < i {
                        assert(has_priority(r0[m], p));
                        let k = choose|k: int| 0 <= k < v0.len() && v0[k] == p;
                        assert(v1[k] == p);
                    } else {
                        assert(v1[v0.len() as int] == p);
                    }
                }
            }
        }
        i += 1;
    }
    assert(records@.take(i as int) == records@);
    let sorted: Vec<String> = sorted_distinct(&names);
    let ghost sv = text::views(sorted@);
    let mut out: Vec<PriorityCycleTimeSummary<A>> = Vec::new();
    let mut k: usize = 0;
    while k < sorted.len()
        invariant
            k <= sorted@.len(),
            sv == text::views(sorted@),
            text::is_increasing(sv),
            forall|p: Seq<char>| #[trigger] sv.contains(p) <==> is_priority(records@, p),
            priority_sums_fit(records@),
            forall|s: i64, n: usize| n > 0 ==> #[trigger] call_requires(*mean, (s, n)),
            out@.len() == k,
            forall|j: int|
                0 <= j < k ==> (#[trigger] out@[j]).priority@ == sv[j] && out@[j].completed_tasks
                    == priority_count(records@, sv[j]) && is_average(
                    *mean,
                    priority_sum(records@, sv[j]),
                    priority_count(records@, sv[j]),
                    out@[j].average_cycle_time_minutes,
                ),
        decreases sorted@.len() - k,
    {
        let totals: (i64, usize) = priority_totals(records, sorted[k].as_str());
        proof {
            assert(sv[k as int] == sorted@[k as int]@);
            assert(sv.contains(sv[k as int]));
            let m = choose|m: int|
                0 <= m < records@.len() && has_priority(#[trigger] records@[m], sv[k as int]);
            lemma_priority_counted(records@, sv[k as int], m);
        }
        let average: A = mean(totals.0, totals.1);
        out.push(
            PriorityCycleTimeSummary {
                priority: copy(sorted[k].as_str()),
                average_cycle_time_minutes: average,
                completed_tasks: totals.1,
            },
        );
        k += 1;
    }
    proof {
        assert forall|i: int, j: int| 0 <= i < j < out@.len() implies text::lex_lt(
            (#[trigger] out@[i]).priority@,
            (#[trigger] out@[j]).priority@,
        ) by {
            assert(text::lex_lt(sv[i], sv[j]));
        }
        assert forall|i: int| 0 <= i < out@.len() implies is_priority(
            records@,
            (#[trigger] out@[i]).priority@,
        ) by {
            assert(sv.contains(sv[i]));
        }
        assert forall|p: Seq<char>| #[trigger] is_priority(records@, p) implies exists|i: int|
            0 <= i < out@.len() && (#[trigger] out@[i]).priority@ == p by {
            assert(sv.contains(p));
            let i = choose|i: int| 0 <= i < sv.len() && sv[i] == p;
            assert(out@[i].priority@ == p);
        }
    }
    out
}

} // verus!
