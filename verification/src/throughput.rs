//! Throughput: what each engineer and each hour completed, and what has been
//! in progress the longest.

use vstd::prelude::*;

use crate::metrics;
use crate::metrics::{
    clone_name, normalized_priority, time_span, EngineerThroughputSummary, HourlyCompletionCount,
    InProgressTaskSummary, Moment, TaskCycleTimeRecord,
};
use crate::order;
use crate::paths;
use crate::ranking;
use crate::ranking::{rank_by, RankKey};
use crate::text;
use crate::text::{copy, same, sorted_distinct};

verus! {

// ---------------------------------------------------------------------------
// Engineers

/// The engineer completed the task.
pub open spec fn completed_by(r: TaskCycleTimeRecord, engineer: Seq<char>) -> bool {
    paths::opt_view(r.engineer) == Some(engineer) && r.completed_at is Some
}

/// Somebody of this name completed a task.
pub open spec fn is_finisher(rs: Seq<TaskCycleTimeRecord>, engineer: Seq<char>) -> bool {
    exists|i: int| 0 <= i < rs.len() && completed_by(#[trigger] rs[i], engineer)
}

/// A number of minutes as an addend.
pub open spec fn minutes_or_zero(m: Option<i64>) -> int {
    match m {
        Some(x) => x as int,
        None => 0,
    }
}

/// What an engineer completed.
pub struct Totals {
    pub completed_tasks: nat,
    pub cycle_sum: int,
    pub cycle_samples: nat,
    pub lead_sum: int,
    pub lead_samples: nat,
}

/// What an engineer completed.
pub open spec fn totals_of(rs: Seq<TaskCycleTimeRecord>, engineer: Seq<char>) -> Totals
    decreases rs.len(),
{
    if rs.len() == 0 {
        Totals {
            completed_tasks: 0,
            cycle_sum: 0,
            cycle_samples: 0,
            lead_sum: 0,
            lead_samples: 0,
        }
    } else {
        let t = totals_of(rs.drop_last(), engineer);
        let r = rs.last();
        if completed_by(r, engineer) {
            Totals {
                completed_tasks: t.completed_tasks + 1,
                cycle_sum: t.cycle_sum + minutes_or_zero(r.cycle_time_minutes),
                cycle_samples: t.cycle_samples + (if r.cycle_time_minutes is Some {
                    1nat
                } else {
                    0nat
                }),
                lead_sum: t.lead_sum + minutes_or_zero(r.lead_time_minutes),
                lead_samples: t.lead_samples + (if r.lead_time_minutes is Some {
                    1nat
                } else {
                    0nat
                }),
            }
        } else {
            t
        }
    }
}

/// The sums fit.
pub open spec fn fits(t: Totals) -> bool {
    &&& i64::MIN <= t.cycle_sum <= i64::MAX
    &&& i64::MIN <= t.lead_sum <= i64::MAX
}

/// Every sum that comes up fits.
pub open spec fn engineer_sums_fit(rs: Seq<TaskCycleTimeRecord>) -> bool {
    forall|n: int, engineer: Seq<char>|
        0 <= n <= rs.len() ==> fits(#[trigger] totals_of(rs.take(n), engineer))
}

/// An average of samples, where there are any.
pub open spec fn is_optional_average<A, M: Fn(i64, usize) -> A>(
    mean: M,
    sum: int,
    samples: nat,
    average: Option<A>,
) -> bool {
    match average {
        Some(a) => samples > 0 && metrics::is_average(mean, sum, samples, a),
        None => samples == 0,
    }
}

/// This is what an engineer completed, with averages.
pub open spec fn is_summary<A, M: Fn(i64, usize) -> A>(
    rs: Seq<TaskCycleTimeRecord>,
    mean: M,
    s: EngineerThroughputSummary<A>,
) -> bool {
    let t = totals_of(rs, s.engineer@);
    &&& s.completed_tasks == t.completed_tasks
    &&& is_optional_average(mean, t.cycle_sum, t.cycle_samples, s.average_cycle_time_minutes)
    &&& is_optional_average(mean, t.lead_sum, t.lead_samples, s.average_lead_time_minutes)
}

/// `a` stands above `b`: more tasks, or as many and the lesser name.
pub open spec fn stands_above<A>(
    a: EngineerThroughputSummary<A>,
    b: EngineerThroughputSummary<A>,
) -> bool {
    a.completed_tasks > b.completed_tasks || (a.completed_tasks == b.completed_tasks
        && text::lex_lt(a.engineer@, b.engineer@))
}

/// This is the ranking: one summary for everybody who completed a task, each
/// above the next.
pub open spec fn is_throughput<A, M: Fn(i64, usize) -> A>(
    rs: Seq<TaskCycleTimeRecord>,
    mean: M,
    summaries: Seq<EngineerThroughputSummary<A>>,
) -> bool {
    &&& forall|i: int, j: int|
        0 <= i < j < summaries.len() ==> stands_above(
            #[trigger] summaries[i],
            #[trigger] summaries[j],
        )
    &&& forall|i: int|
        0 <= i < summaries.len() ==> is_finisher(rs, (#[trigger] summaries[i]).engineer@)
            && is_summary(rs, mean, summaries[i])
    &&& forall|e: Seq<char>| #[trigger]
        is_finisher(rs, e) ==> exists|i: int|
            0 <= i < summaries.len() && (#[trigger] summaries[i]).engineer@ == e
}

fn summarize<A, M: Fn(i64, usize) -> A>(
    rs: &Vec<TaskCycleTimeRecord>,
    engineer: &str,
    mean: &M,
) -> (r: EngineerThroughputSummary<A>)
    requires
        engineer_sums_fit(rs@),
        forall|s: i64, n: usize| n > 0 ==> #[trigger] call_requires(*mean, (s, n)),
    ensures
        r.engineer@ == engineer@,
        is_summary(rs@, *mean, r),
{
    let mut completed_tasks: usize = 0;
    let mut cycle_sum: i64 = 0;
    let mut cycle_samples: usize = 0;
    let mut lead_sum: i64 = 0;
    let mut lead_samples: usize = 0;
    let mut i: usize = 0;
    while i < rs.len()
        invariant
            i <= rs@.len(),
            engineer_sums_fit(rs@),
            completed_tasks <= i,
            cycle_samples <= i,
            lead_samples <= i,
            totals_of(rs@.take(i as int), engineer@) == (Totals {
                completed_tasks: completed_tasks as nat,
                cycle_sum: cycle_sum as int,
                cycle_samples: cycle_samples as nat,
                lead_sum: lead_sum as int,
                lead_samples: lead_samples as nat,
            }),
        decreases rs@.len() - i,
    {
        assert(rs@.take(i + 1).drop_last() == rs@.take(i as int));
        assert(fits(totals_of(rs@.take(i + 1), engineer@)));
        let r: &TaskCycleTimeRecord = &rs[i];
        let is_theirs: bool = match &r.engineer {
            Some(name) => same(name.as_str(), engineer),
            None => false,
        };
        if is_theirs && r.completed_at.is_some() {
            completed_tasks += 1;
            if let Some(m) = r.cycle_time_minutes {
                cycle_sum += m;
                cycle_samples += 1;
            }
            if let Some(m) = r.lead_time_minutes {
                lead_sum += m;
                lead_samples += 1;
            }
        }
        i += 1;
    }
    assert(rs@.take(i as int) == rs@);
    let average_cycle_time_minutes: Option<A> = if cycle_samples > 0 {
        Some(mean(cycle_sum, cycle_samples))
    } else {
        None
    };
    let average_lead_time_minutes: Option<A> = if lead_samples > 0 {
        Some(mean(lead_sum, lead_samples))
    } else {
        None
    };
    EngineerThroughputSummary {
        engineer: copy(engineer),
        completed_tasks,
        average_cycle_time_minutes,
        average_lead_time_minutes,
    }
}

fn finishers(rs: &Vec<TaskCycleTimeRecord>) -> (r: Vec<String>)
    ensures
        text::is_increasing(text::views(r@)),
        forall|e: Seq<char>| #[trigger] text::views(r@).contains(e) <==> is_finisher(rs@, e),
{
    let mut names: Vec<String> = Vec::new();
    let mut i: usize = 0;
    while i < rs.len()
        invariant
            i <= rs@.len(),
            forall|e: Seq<char>| #[trigger]
                text::views(names@).contains(e) <==> is_finisher(rs@.take(i as int), e),
        decreases rs@.len() - i,
    {
        let ghost before = names@;
        let ghost r0 = rs@.take(i as int);
        let ghost r1 = rs@.take(i + 1);
        let r: &TaskCycleTimeRecord = &rs[i];
        if r.completed_at.is_some() {
            match &r.engineer {
                Some(name) => {
                    names.push(copy(name.as_str()));
                    assert(text::views(names@) == text::views(before).push(name@));
                },
                None => {},
            }
        }
        proof {
            let v0 = text::views(before);
            let v1 = text::views(names@);
            assert forall|e: Seq<char>| #[trigger] v1.contains(e) <==> is_finisher(r1, e) by {
                assert(v0.contains(e) <==> is_finisher(r0, e));
                if v1.contains(e) {
                    let k = choose|k: int| 0 <= k < v1.len() && v1[k] == e;
                    if k < v0.len() {
                        assert(v0[k] == e);
                        let m = choose|m: int| 0 <= m < r0.len() && completed_by(
                            #[trigger] r0[m],
                            e,
                        );
                        assert(completed_by(r1[m], e));
                    } else {
                        assert(completed_by(r1[i as int], e));
                    }
                }
                if is_finisher(r1, e) {
                    let m = choose|m: int| 0 <= m < r1.len() && completed_by(#[trigger] r1[m], e);
                    if m < i {
                        assert(completed_by(r0[m], e));
                        let k = choose|k: int| 0 <= k < v0.len() && v0[k] == e;
                        assert(v1[k] == e);
                    } else {
                        assert(v1[v0.len() as int] == e);
                    }
                }
            }
        }
        i += 1;
    }
    assert(rs@.take(i as int) == rs@);
    sorted_distinct(&names)
}

/// How many tasks somebody completed, to rank by.
pub open spec fn completion_key(rs: Seq<TaskCycleTimeRecord>, engineer: Seq<char>) -> RankKey {
    RankKey {
        score: totals_of(rs, engineer).completed_tasks as usize,
        at: None,
        stamp: None,
        id: 0,
    }
}

proof fn lemma_completed_bound(rs: Seq<TaskCycleTimeRecord>, engineer: Seq<char>)
    ensures
        totals_of(rs, engineer).completed_tasks <= rs.len(),
    decreases rs.len(),
{
    if rs.len() > 0 {
        lemma_completed_bound(rs.drop_last(), engineer);
    }
}

/// Ranks the engineers by how many tasks they completed, those with as many
/// by name; `mean` takes a sum and a count.
pub fn engineer_throughput_ranking<A, M: Fn(i64, usize) -> A>(
    records: &Vec<TaskCycleTimeRecord>,
    mean: &M,
) -> (r: Vec<EngineerThroughputSummary<A>>)
    requires
        engineer_sums_fit(records@),
        forall|s: i64, n: usize| n > 0 ==> #[trigger] call_requires(*mean, (s, n)),
    ensures
        is_throughput(records@, *mean, r@),
{
    let names: Vec<String> = finishers(records);
    let ghost nv = text::views(names@);
    let mut keys: Vec<RankKey> = Vec::new();
    let mut i: usize = 0;
    while i < names.len()
        invariant
            i <= names@.len(),
            nv == text::views(names@),
            engineer_sums_fit(records@),
            forall|s: i64, n: usize| n > 0 ==> #[trigger] call_requires(*mean, (s, n)),
            keys@.len() == i,
            forall|k: int|
                0 <= k < i ==> #[trigger] keys@[k] == completion_key(records@, nv[k]),
        decreases names@.len() - i,
    {
        let s: EngineerThroughputSummary<A> = summarize(records, names[i].as_str(), mean);
        assert(nv[i as int] == names@[i as int]@);
        keys.push(RankKey { score: s.completed_tasks, at: None, stamp: None, id: 0 });
        i += 1;
    }
    let order: Vec<usize> = rank_by(&keys);
    let count: usize = keys.len();
    proof {
        ranking::law_ranking_is_in_order(keys@);
        ranking::law_equal_ranks_keep_their_order(keys@);
    }
    let mut out: Vec<EngineerThroughputSummary<A>> = Vec::new();
    let mut k: usize = 0;
    while k < count
        invariant
            k <= count,
            count == names@.len(),
            order@.len() == count,
            nv == text::views(names@),
            forall|j: int| 0 <= j < count ==> (#[trigger] order@[j]) < count,
            engineer_sums_fit(records@),
            forall|s: i64, n: usize| n > 0 ==> #[trigger] call_requires(*mean, (s, n)),
            out@.len() == k,
            forall|j: int|
                0 <= j < k ==> (#[trigger] out@[j]).engineer@ == nv[order@[j] as int]
                    && is_summary(records@, *mean, out@[j]),
        decreases count - k,
    {
        assert(order@[k as int] < count);
        assert(nv[order@[k as int] as int] == names@[order@[k as int] as int]@);
        out.push(summarize(records, names[order[k]].as_str(), mean));
        k += 1;
    }
    proof {
        assert forall|i: int, j: int| 0 <= i < j < out@.len() implies stands_above(
            #[trigger] out@[i],
            #[trigger] out@[j],
        ) by {
            let a = order@[i] as int;
            let b = order@[j] as int;
            assert(!ranking::outranks(keys@[b], keys@[a]));
            lemma_completed_bound(records@, nv[a]);
            lemma_completed_bound(records@, nv[b]);
            let total: usize = records.len();
            assert(keys@[a] == completion_key(records@, nv[a]));
            assert(keys@[b] == completion_key(records@, nv[b]));
            assert(out@[i].completed_tasks >= out@[j].completed_tasks);
            if out@[i].completed_tasks == out@[j].completed_tasks {
                assert(!ranking::outranks(keys@[a], keys@[b]));
                assert(a < b);
                assert(text::lex_lt(nv[a], nv[b]));
            }
        }
        assert forall|i: int| 0 <= i < out@.len() implies is_finisher(
            records@,
            (#[trigger] out@[i]).engineer@,
        ) by {
            assert(nv.contains(nv[order@[i] as int]));
        }
        assert forall|e: Seq<char>| #[trigger] is_finisher(records@, e) implies exists|i: int|
            0 <= i < out@.len() && (#[trigger] out@[i]).engineer@ == e by {
            assert(nv.contains(e));
            let m = choose|m: int| 0 <= m < nv.len() && nv[m] == e;
            ranking::law_ranking_holds_all(keys@, m as usize);
            let i = choose|i: int| 0 <= i < order@.len() && order@[i] == m as usize;
            assert(out@[i].engineer@ == e);
        }
    }
    out
}

// ---------------------------------------------------------------------------
// Hours

/// The hour in which a moment lies, by its first second.
pub open spec fn hour_of(t: int) -> int {
    t / 3600 * 3600
}

/// How many tasks were completed in the hour that starts at `hour`.
pub open spec fn completed_in(rs: Seq<TaskCycleTimeRecord>, hour: int) -> nat
    decreases rs.len(),
{
    if rs.len() == 0 {
        0
    } else {
        completed_in(rs.drop_last(), hour) + (if rs.last().completed_at is Some && hour_of(
            rs.last().completed_at->Some_0 as int,
        ) == hour {
            1nat
        } else {
            0nat
        })
    }
}

/// The length of the window, at least one hour.
pub open spec fn window(window_hours: i64) -> int {
    if window_hours < 1 {
        1
    } else {
        window_hours as int
    }
}

/// The first hour of the window.
pub open spec fn first_hour(now: i64, window_hours: i64) -> int {
    hour_of(now as int) - (window(window_hours) - 1) * 3600
}

fn hour_start(t: i64) -> (r: i64)
    requires
        i64::MIN <= hour_of(t as int),
    ensures
        r == hour_of(t as int),
{
    match t.checked_div_euclid(3600) {
        Some(h) => h * 3600,
        None => 0,
    }
}

/// Counts the tasks that were completed in each hour of the window that ends
/// with the hour of `now`, the first hour first.
pub fn tasks_completed_per_hour(
    records: &Vec<TaskCycleTimeRecord>,
    now: i64,
    window_hours: i64,
) -> (r: Vec<HourlyCompletionCount>)
    requires
        records@.len() <= i64::MAX,
        window(window_hours) <= usize::MAX,
        (window(window_hours) - 1) * 3600 <= i64::MAX,
        i64::MIN <= first_hour(now, window_hours),
        forall|i: int|
            0 <= i < records@.len() && (#[trigger] records@[i]).completed_at is Some ==> i64::MIN
                <= hour_of(records@[i].completed_at->Some_0 as int),
    ensures
        r@.len() == window(window_hours),
        forall|k: int|
            0 <= k < r@.len() ==> (#[trigger] r@[k]).hour_start == first_hour(now, window_hours) + k
                * 3600 && r@[k].completed_tasks == completed_in(
                records@,
                first_hour(now, window_hours) + k * 3600,
            ),
{
    let hours: i64 = if window_hours < 1 {
        1
    } else {
        window_hours
    };
    let current: i64 = hour_start(now);
    let first: i64 = current - (hours - 1) * 3600;
    let mut out: Vec<HourlyCompletionCount> = Vec::new();
    let mut k: i64 = 0;
    while k < hours
        invariant
            0 <= k <= hours,
            hours == window(window_hours),
            hours <= usize::MAX,
            (hours - 1) * 3600 <= i64::MAX,
            current == hour_of(now as int),
            first == first_hour(now, window_hours),
            records@.len() <= i64::MAX,
            forall|i: int|
                0 <= i < records@.len() && (#[trigger] records@[i]).completed_at is Some
                    ==> i64::MIN <= hour_of(records@[i].completed_at->Some_0 as int),
            out@.len() == k,
            forall|j: int|
                0 <= j < k ==> (#[trigger] out@[j]).hour_start == first + j * 3600
                    && out@[j].completed_tasks == completed_in(records@, first + j * 3600),
        decreases hours - k,
    {
        let hour: i64 = first + k * 3600;
        let mut count: i64 = 0;
        let mut i: usize = 0;
        while i < records.len()
            invariant
                i <= records@.len(),
                records@.len() <= i64::MAX,
                0 <= count <= i,
                forall|m: int|
                    0 <= m < records@.len() && (#[trigger] records@[m]).completed_at is Some
                        ==> i64::MIN <= hour_of(records@[m].completed_at->Some_0 as int),
                count == completed_in(records@.take(i as int), hour as int),
            decreases records@.len() - i,
        {
            assert(records@.take(i + 1).drop_last() == records@.take(i as int));
            if let Some(t) = records[i].completed_at {
                assert(i64::MIN <= hour_of(records@[i as int].completed_at->Some_0 as int));
                if hour_start(t) == hour {
                    count += 1;
                }
            }
            i += 1;
        }
        assert(records@.take(i as int) == records@);
        out.push(HourlyCompletionCount { hour_start: hour, completed_tasks: count });
        k += 1;
    }
    out
}

// ---------------------------------------------------------------------------
// In progress

/// The minutes of a span, none where it runs backwards.
pub open spec fn elapsed_minutes(span: (i64, i32)) -> i64 {
    if span.0 >= 0 {
        (span.0 / 60) as i64
    } else {
        0
    }
}

/// The minutes since the start of a task in progress, where it is one.
pub open spec fn minutes_running(r: TaskCycleTimeRecord, now: Moment) -> Option<i64> {
    if r.status@ == "in-progress"@ && r.completed_at is None && r.started_at is Some {
        match metrics::span_between(r.started_at->Some_0, 0, now.secs, now.nanos) {
            Some(span) => Some(elapsed_minutes(span)),
            None => None,
        }
    } else {
        None
    }
}

/// The task runs from an ordinary moment to an ordinary one.
pub open spec fn runs_ordinarily(r: TaskCycleTimeRecord, now: Moment) -> bool {
    &&& r.status@ == "in-progress"@
    &&& r.completed_at is None
    &&& r.started_at matches Some(start) && metrics::is_ordinary((Moment { secs: start, nanos: 0 }))
    &&& metrics::is_ordinary(now)
}

/// The whole minutes from `start` to an ordinary moment, none where it lies
/// before.
pub open spec fn minutes_since(start: i64, now: Moment) -> int {
    let nanos = (now.secs - start) * 1_000_000_000 + now.nanos;
    if nanos >= 0 {
        nanos / 60_000_000_000
    } else {
        0
    }
}

fn running_minutes(r: &TaskCycleTimeRecord, now: &Moment) -> (m: Option<i64>)
    ensures
        m == minutes_running(*r, *now),
        runs_ordinarily(*r, *now) ==> m is Some && m->Some_0 == minutes_since(
            r.started_at->Some_0,
            *now,
        ),
{
    if !same(r.status.as_str(), "in-progress") || r.completed_at.is_some() {
        return None;
    }
    match r.started_at {
        Some(started) => {
            match time_span(&Moment { secs: started, nanos: 0 }, now) {
                Some(span) => {
                    if span.0 >= 0 {
                        Some(span.0 / 60)
                    } else {
                        Some(0)
                    }
                },
                None => None,
            }
        },
        None => None,
    }
}

/// The positions below `n` of the tasks in progress.
pub open spec fn running(rs: Seq<TaskCycleTimeRecord>, now: Moment, n: int) -> Seq<usize>
    decreases n,
{
    if n <= 0 {
        Seq::empty()
    } else if minutes_running(rs[n - 1], now) is Some {
        running(rs, now, n - 1).push((n - 1) as usize)
    } else {
        running(rs, now, n - 1)
    }
}

/// What tasks in progress are ranked by: the minutes, then the lower number.
pub open spec fn running_keys(rs: Seq<TaskCycleTimeRecord>, now: Moment, at: Seq<usize>) -> Seq<
    RankKey,
> {
    Seq::new(
        at.len(),
        |i: int|
            RankKey {
                score: 0,
                at: minutes_running(rs[at[i] as int], now),
                stamp: None,
                id: (u32::MAX - rs[at[i] as int].task_id) as u32,
            },
    )
}

/// The positions of the tasks that have been in progress the longest.
pub open spec fn longest_running(rs: Seq<TaskCycleTimeRecord>, now: Moment, limit: nat) -> Seq<
    usize,
> {
    let all = running(rs, now, rs.len() as int);
    let ranked = order::pick(all, ranking::ranking(running_keys(rs, now, all)));
    if ranked.len() <= limit {
        ranked
    } else {
        ranked.take(limit as int)
    }
}

/// This is the summary of a task in progress.
pub open spec fn is_in_progress(
    s: InProgressTaskSummary,
    r: TaskCycleTimeRecord,
    now: Moment,
) -> bool {
    &&& s.task_id == r.task_id
    &&& s.title@ == r.title@
    &&& s.engineer == r.engineer
    &&& s.priority@ == metrics::priority_name(r.priority@)
    &&& Some(s.minutes_in_progress) == minutes_running(r, now)
}

proof fn lemma_running_bound(rs: Seq<TaskCycleTimeRecord>, now: Moment, n: int)
    requires
        0 <= n <= rs.len() <= usize::MAX,
    ensures
        forall|k: int|
            0 <= k < running(rs, now, n).len() ==> (#[trigger] running(rs, now, n)[k]) < n
                && minutes_running(rs[running(rs, now, n)[k] as int], now) is Some,
    decreases n,
{
    if n > 0 {
        lemma_running_bound(rs, now, n - 1);
        let r0 = running(rs, now, n - 1);
        let r1 = running(rs, now, n);
        assert forall|k: int| 0 <= k < r1.len() implies (#[trigger] r1[k]) < n && minutes_running(
            rs[r1[k] as int],
            now,
        ) is Some by {
            if k < r0.len() {
                assert(r1[k] == r0[k]);
            }
        }
    }
}

/// The tasks that have been in progress the longest, the longest first, and
/// the lower number first where two have been as long.
pub fn longest_running_in_progress_tasks(
    records: &Vec<TaskCycleTimeRecord>,
    now: &Moment,
    limit: usize,
) -> (r: Vec<InProgressTaskSummary>)
    ensures
        forall|k: int|
            0 <= k < records@.len() && runs_ordinarily(#[trigger] records@[k], *now)
                ==> minutes_running(records@[k], *now) is Some && minutes_running(
                records@[k],
                *now,
            )->Some_0 == minutes_since(records@[k].started_at->Some_0, *now),
        r@.len() == longest_running(records@, *now, limit as nat).len(),
        forall|i: int|
            0 <= i < r@.len() ==> is_in_progress(
                #[trigger] r@[i],
                records@[longest_running(records@, *now, limit as nat)[i] as int],
                *now,
            ),
{
    let mut all: Vec<usize> = Vec::new();
    let mut keys: Vec<RankKey> = Vec::new();
    let mut i: usize = 0;
    while i < records.len()
        invariant
            i <= records@.len(),
            all@ == running(records@, *now, i as int),
            keys@ == running_keys(records@, *now, all@),
            forall|k: int|
                0 <= k < i && runs_ordinarily(#[trigger] records@[k], *now) ==> minutes_running(
                    records@[k],
                    *now,
                ) is Some && minutes_running(records@[k], *now)->Some_0 == minutes_since(
                    records@[k].started_at->Some_0,
                    *now,
                ),
        decreases records@.len() - i,
    {
        let minutes: Option<i64> = running_minutes(&records[i], now);
        if minutes.is_some() {
            all.push(i);
            keys.push(
                RankKey {
                    score: 0,
                    at: minutes,
                    stamp: None,
                    id: u32::MAX - records[i].task_id,
                },
            );
            assert(keys@ =~= running_keys(records@, *now, all@));
        }
        i += 1;
    }
    let n: usize = all.len();
    let total: usize = records.len();
    let order: Vec<usize> = rank_by(&keys);
    proof {
        ranking::law_ranking_is_in_order(keys@);
        lemma_running_bound(records@, *now, total as int);
    }
    let take: usize = if n <= limit {
        n
    } else {
        limit
    };
    let ghost ranked = order::pick(all@, order@);
    let ghost chosen = longest_running(records@, *now, limit as nat);
    assert(ranked.take(n as int) == ranked);
    let mut out: Vec<InProgressTaskSummary> = Vec::new();
    let mut k: usize = 0;
    while k < take
        invariant
            k <= take <= n,
            n == all@.len(),
            order@.len() == n,
            ranked == order::pick(all@, order@),
            chosen == ranked.take(take as int),
            forall|j: int| 0 <= j < n ==> (#[trigger] order@[j]) < n,
            forall|j: int|
                0 <= j < n ==> (#[trigger] all@[j]) < records@.len() && minutes_running(
                    records@[all@[j] as int],
                    *now,
                ) is Some,
            out@.len() == k,
            forall|j: int|
                0 <= j < k ==> is_in_progress(
                    #[trigger] out@[j],
                    records@[chosen[j] as int],
                    *now,
                ),
        decreases take - k,
    {
        assert(order@[k as int] < n);
        let at: usize = all[order[k]];
        let r: &TaskCycleTimeRecord = &records[at];
        assert(chosen[k as int] == at);
        let minutes: i64 = match running_minutes(r, now) {
            Some(m) => m,
            None => 0,
        };
        out.push(
            InProgressTaskSummary {
                task_id: r.task_id,
                title: copy(r.title.as_str()),
                engineer: clone_name(&r.engineer),
                priority: normalized_priority(r.priority.as_str()),
                minutes_in_progress: minutes,
            },
        );
        k += 1;
    }
    out
}

// ---------------------------------------------------------------------------
// Laws

/// A task that was completed counts in exactly one hour: the hours of a
/// window share no moment.
pub proof fn law_hours_are_apart(t: int, a: int, b: int)
    requires
        a < b,
    ensures
        !(hour_of(t) == a * 3600 && hour_of(t) == b * 3600),
        hour_of(t) <= t < hour_of(t) + 3600,
{
}

/// Work cannot take longer than the task has existed: where a task was
/// created before it was started, and started before it was completed, all at
/// ordinary moments, the cycle time is not above the lead time.
pub proof fn law_cycle_time_is_within_lead_time(
    created: Moment,
    started: Moment,
    completed: Moment,
)
    requires
        metrics::is_ordinary(created),
        metrics::is_ordinary(started),
        metrics::is_ordinary(completed),
        metrics::ordinary_minutes(created, started) is Some,
        metrics::ordinary_minutes(started, completed) is Some,
    ensures
        metrics::ordinary_minutes(created, completed) is Some,
        0 <= metrics::ordinary_minutes(started, completed)->Some_0
            <= metrics::ordinary_minutes(created, completed)->Some_0,
{
}

} // verus!
