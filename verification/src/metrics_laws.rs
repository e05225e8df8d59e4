//! What holds of the numbers that are reported: times, counts, loads and the
//! totals of the dashboard.

use vstd::prelude::*;

use crate::dashboard;
use crate::dashboard::{
    AgentMetricsRow, DashboardMetrics, ReviewMetricsRow, SessionSummaryRow, TaskTimesRow, TelemetryRows,
};
use crate::load;
use crate::load::{LoadEvent, TeamLoadSnapshot, TeamStatusRow};
use crate::metrics;
use crate::metrics::{
    BoardTask, EngineerThroughputSummary, Moment, PriorityCycleTimeSummary, TaskCycleTimeRecord,
};
use crate::order;
use crate::ranking;
use crate::text;
use crate::throughput;

verus! {

// ---------------------------------------------------------------------------
// Times

/// A time is reported in whole minutes, of which the last may be underway, and
/// not at all where the end lies before the start.
pub proof fn law_times_are_whole_minutes(start: Moment, end: Moment)
    requires
        metrics::is_ordinary(start),
        metrics::is_ordinary(end),
    ensures
        ({
            let elapsed = (end.secs * 1_000_000_000 + end.nanos) - (start.secs * 1_000_000_000
                + start.nanos);
            match metrics::ordinary_minutes(start, end) {
                Some(m) => 0 <= elapsed && m * 60_000_000_000 <= elapsed < (m + 1) * 60_000_000_000,
                None => elapsed < 0,
            }
        }),
        metrics::span_between(start.secs, start.nanos, end.secs, end.nanos) matches Some((s, n))
            ==> ({
            let m = metrics::forward_minutes(Some((s, n)));
            &&& m is Some <==> s > 0 || (s == 0 && n >= 0)
            &&& m is Some ==> m->Some_0 * 60 <= s < (m->Some_0 + 1) * 60
        }),
{
}

/// A record tells the cycle time from the start and the lead time from the
/// creation of a task, both to its completion; a task that is not completed has
/// neither.
pub proof fn law_records_tell_both_times(
    r: TaskCycleTimeRecord,
    task_id: u32,
    title: Seq<char>,
    engineer: Option<Seq<char>>,
    priority: Seq<char>,
    status: Seq<char>,
    created: Option<Moment>,
    started: Option<Moment>,
    completed: Option<Moment>,
)
    requires
        metrics::is_record(
            r,
            task_id,
            title,
            engineer,
            priority,
            status,
            created,
            started,
            completed,
        ),
    ensures
        completed is None ==> r.completed_at is None && r.cycle_time_minutes is None
            && r.lead_time_minutes is None,
        started is None ==> r.started_at is None && r.cycle_time_minutes is None,
        created is None ==> r.created_at is None && r.lead_time_minutes is None,
        started is Some && created == started ==> r.cycle_time_minutes == r.lead_time_minutes,
        (created matches Some(c) && started matches Some(s) && completed matches Some(e)) ==> ({
            let c = created->Some_0;
            let s = started->Some_0;
            let e = completed->Some_0;
            &&& r.created_at == Some(c.secs)
            &&& r.started_at == Some(s.secs)
            &&& r.completed_at == Some(e.secs)
            &&& r.cycle_time_minutes == metrics::forward_minutes(
                metrics::span_between(s.secs, s.nanos, e.secs, e.nanos),
            )
            &&& r.lead_time_minutes == metrics::forward_minutes(
                metrics::span_between(c.secs, c.nanos, e.secs, e.nanos),
            )
        }),
{
}

// ---------------------------------------------------------------------------
// Averages and counts

/// One more record counts for its priority if it has a cycle time, with that
/// time, and for no other priority; a priority that is blank counts as
/// `unspecified`, and letters are not told apart by their case.
pub proof fn law_one_more_record_of_a_priority(
    rs: Seq<TaskCycleTimeRecord>,
    r: TaskCycleTimeRecord,
    priority: Seq<char>,
)
    ensures
        ({
            let t = text::trim(r.priority@);
            let name = if t.len() == 0 {
                "unspecified"@
            } else {
                text::lowercase(t)
            };
            let counts = r.cycle_time_minutes is Some && name == priority;
            &&& counts ==> metrics::priority_count(rs.push(r), priority)
                == metrics::priority_count(rs, priority) + 1 && metrics::priority_sum(
                rs.push(r),
                priority,
            ) == metrics::priority_sum(rs, priority) + r.cycle_time_minutes->Some_0
            &&& !counts ==> metrics::priority_count(rs.push(r), priority)
                == metrics::priority_count(rs, priority) && metrics::priority_sum(
                rs.push(r),
                priority,
            ) == metrics::priority_sum(rs, priority)
            &&& metrics::priority_count(Seq::empty(), priority) == 0
            &&& metrics::priority_sum(Seq::empty(), priority) == 0
        }),
{
    assert(rs.push(r).drop_last() =~= rs);
}

/// One more record counts for the engineer who completed it, with its cycle and
/// its lead time where it has them, and for nobody else; what is not completed
/// counts for nobody.
pub proof fn law_one_more_completed_task(
    rs: Seq<TaskCycleTimeRecord>,
    r: TaskCycleTimeRecord,
    engineer: Seq<char>,
)
    ensures
        ({
            let before = throughput::totals_of(rs, engineer);
            let now = throughput::totals_of(rs.push(r), engineer);
            let counts = r.completed_at is Some && (r.engineer matches Some(e) && e@ == engineer);
            &&& !counts ==> now == before
            &&& counts ==> now.completed_tasks == before.completed_tasks + 1
            &&& counts && r.cycle_time_minutes is Some ==> now.cycle_samples
                == before.cycle_samples + 1 && now.cycle_sum == before.cycle_sum
                + r.cycle_time_minutes->Some_0
            &&& counts && r.cycle_time_minutes is None ==> now.cycle_samples
                == before.cycle_samples && now.cycle_sum == before.cycle_sum
            &&& counts && r.lead_time_minutes is Some ==> now.lead_samples == before.lead_samples
                + 1 && now.lead_sum == before.lead_sum + r.lead_time_minutes->Some_0
            &&& counts && r.lead_time_minutes is None ==> now.lead_samples == before.lead_samples
                && now.lead_sum == before.lead_sum
            &&& throughput::totals_of(Seq::empty(), engineer).completed_tasks == 0
        }),
{
    assert(rs.push(r).drop_last() =~= rs);
}

/// A completion counts in the hour in which it lies, and in no other.
pub proof fn law_completions_count_in_their_hour(
    rs: Seq<TaskCycleTimeRecord>,
    r: TaskCycleTimeRecord,
    k: int,
)
    ensures
        ({
            let hour = k * 3600;
            let lies = r.completed_at matches Some(t) && hour <= t < hour + 3600;
            &&& lies ==> throughput::completed_in(rs.push(r), hour) == throughput::completed_in(
                rs,
                hour,
            ) + 1
            &&& !lies ==> throughput::completed_in(rs.push(r), hour) == throughput::completed_in(
                rs,
                hour,
            )
            &&& throughput::completed_in(Seq::empty(), hour) == 0
        }),
{
    assert(rs.push(r).drop_last() =~= rs);
}

/// The window of hours ends with the hour that holds `now`, and has as many
/// hours as asked for, at least one.
pub proof fn law_window_ends_now(now: i64, hours: i64)
    ensures
        ({
            let n = if hours < 1 {
                1
            } else {
                hours as int
            };
            let first = throughput::first_hour(now, hours);
            &&& throughput::window(hours) == n
            &&& first % 3600 == 0
            &&& first + (n - 1) * 3600 <= now < first + n * 3600
        }),
{
}

// ---------------------------------------------------------------------------
// Tasks in progress

proof fn lemma_running(rs: Seq<TaskCycleTimeRecord>, now: Moment, n: int)
    requires
        0 <= n <= rs.len() <= usize::MAX,
    ensures
        ({
            let all = throughput::running(rs, now, n);
            &&& all.len() <= n
            &&& forall|k: int|
                0 <= k < all.len() ==> (#[trigger] all[k]) < n && throughput::minutes_running(
                    rs[all[k] as int],
                    now,
                ) is Some
            &&& forall|i: int|
                0 <= i < n && throughput::minutes_running(#[trigger] rs[i], now) is Some
                    ==> all.contains(i as usize)
            &&& all.no_duplicates()
        }),
    decreases n,
{
    if n > 0 {
        lemma_running(rs, now, n - 1);
        let before = throughput::running(rs, now, n - 1);
        let all = throughput::running(rs, now, n);
        assert forall|i: int|
            0 <= i < n && throughput::minutes_running(
                #[trigger] rs[i],
                now,
            ) is Some implies all.contains(i as usize) by {
            if i < n - 1 {
                let k = choose|k: int| 0 <= k < before.len() && before[k] == i as usize;
                assert(all[k] == i as usize);
            } else {
                assert(all[all.len() - 1] == i as usize);
            }
        }
    }
}

/// Only a task that is in progress, was started and is not completed is
/// reported as running. The longest comes first, and the lower number of two
/// that ran as long. None that is left out has run longer than one that is
/// shown, and none is left out while there is room.
pub proof fn law_longest_running_tasks_are_shown(
    rs: Seq<TaskCycleTimeRecord>,
    now: Moment,
    limit: nat,
)
    requires
        rs.len() <= usize::MAX,
    ensures
        ({
            let shown = throughput::longest_running(rs, now, limit);
            let minutes = |i: int| throughput::minutes_running(rs[i], now)->Some_0;
            &&& shown.len() <= limit
            &&& forall|k: int|
                0 <= k < shown.len() ==> (#[trigger] shown[k]) < rs.len() && rs[shown[k] as int].status@
                    == "in-progress"@ && rs[shown[k] as int].completed_at is None
                    && rs[shown[k] as int].started_at is Some
            &&& forall|k: int, m: int|
                0 <= k < m < shown.len() ==> {
                    &&& minutes(#[trigger] shown[k] as int) >= minutes(#[trigger] shown[m] as int)
                    &&& minutes(shown[k] as int) == minutes(shown[m] as int)
                        ==> rs[shown[k] as int].task_id <= rs[shown[m] as int].task_id
                    &&& shown[k] != shown[m]
                }
            &&& forall|i: int|
                0 <= i < rs.len() && throughput::minutes_running(#[trigger] rs[i], now) is Some
                    ==> shown.contains(i as usize) || (shown.len() == limit && forall|k: int|
                    0 <= k < shown.len() ==> minutes(#[trigger] shown[k] as int) >= minutes(i))
        }),
{
    let n = rs.len() as int;
    lemma_running(rs, now, n);
    let all = throughput::running(rs, now, n);
    let keys = throughput::running_keys(rs, now, all);
    ranking::law_ranking_is_in_order(keys);
    let o = ranking::ranking(keys);
    let ranked = order::pick(all, o);
    let shown = throughput::longest_running(rs, now, limit);
    let minutes = |i: int| throughput::minutes_running(rs[i], now)->Some_0;
    assert forall|k: int| 0 <= k < shown.len() implies (#[trigger] shown[k]) < rs.len()
        && rs[shown[k] as int].status@ == "in-progress"@ && rs[shown[k] as int].completed_at is None
        && rs[shown[k] as int].started_at is Some by {
        assert(shown[k] == all[o[k] as int]);
    }
    assert forall|k: int, m: int| 0 <= k < m < shown.len() implies {
        &&& minutes(#[trigger] shown[k] as int) >= minutes(#[trigger] shown[m] as int)
        &&& minutes(shown[k] as int) == minutes(shown[m] as int) ==> rs[shown[k] as int].task_id
            <= rs[shown[m] as int].task_id
        &&& shown[k] != shown[m]
    } by {
        assert(shown[k] == all[o[k] as int] && shown[m] == all[o[m] as int]);
        assert(!ranking::outranks(keys[o[m] as int], keys[o[k] as int]));
        assert(o[k] != o[m]);
    }
    assert forall|i: int|
        0 <= i < rs.len() && throughput::minutes_running(
            #[trigger] rs[i],
            now,
        ) is Some implies shown.contains(i as usize) || (shown.len() == limit && forall|k: int|
        0 <= k < shown.len() ==> minutes(#[trigger] shown[k] as int) >= minutes(i)) by {
        let a = choose|a: int| 0 <= a < all.len() && all[a] == i as usize;
        ranking::law_ranking_holds_all(keys, a as usize);
        let r = choose|r: int| 0 <= r < o.len() && o[r] == a as usize;
        if r < shown.len() {
            assert(shown[r] == i as usize);
        } else {
            assert forall|k: int| 0 <= k < shown.len() implies minutes(#[trigger] shown[k] as int)
                >= minutes(i) by {
                assert(shown[k] == all[o[k] as int]);
                assert(!ranking::outranks(keys[o[r] as int], keys[o[k] as int]));
            }
        }
    }
}

// ---------------------------------------------------------------------------
// Load

/// One more row counts as a member unless it is the user's, and as load if its
/// member works, triages or reviews.
pub proof fn law_members_at_work_are_load(rows: Seq<TeamStatusRow>, row: TeamStatusRow)
    ensures
        ({
            let member = row.role_type@ != "User"@;
            let works = row.state@ == "working"@ || row.state@ == "triaging"@ || row.state@
                == "reviewing"@;
            &&& load::member_rows(rows.push(row)) == load::member_rows(rows) + (if member {
                1int
            } else {
                0
            })
            &&& load::active_rows(rows.push(row)) == load::active_rows(rows) + (if member && works {
                1int
            } else {
                0
            })
            &&& load::member_rows(Seq::empty()) == 0
            &&& load::active_rows(Seq::empty()) == 0
        }),
{
    assert(rows.push(row).drop_last() =~= rows);
}

/// An event adds a sample to the history exactly if it is a snapshot of the
/// load and holds all numbers, and the sample holds these.
pub proof fn law_snapshots_make_the_history<L>(events: Seq<LoadEvent<L>>, e: LoadEvent<L>)
    ensures
        ({
            let before = load::samples_of(events);
            let now = load::samples_of(events.push(e));
            if e.event@ == "load_snapshot"@ && e.load is Some && e.working_members is Some
                && e.total_members is Some {
                &&& now.len() == before.len() + 1
                &&& now.drop_last() == before
                &&& now.last().timestamp == e.ts
                &&& now.last().load == e.load->Some_0
                &&& now.last().working_members == e.working_members->Some_0 as usize
                &&& now.last().total_members == e.total_members->Some_0 as usize
                &&& now.last().session_running == (e.session_running == Some(true))
            } else {
                now == before
            }
        }),
{
    assert(events.push(e).drop_last() =~= events);
    let before = load::samples_of(events);
    if let Some(s) = load::sample_of(e) {
        assert(before.push(s).drop_last() =~= before);
    }
}

/// A sample counts for a span exactly if it was taken from its start on and
/// before its end.
pub proof fn law_samples_count_in_their_span<L>(
    samples: Seq<TeamLoadSnapshot<L>>,
    s: TeamLoadSnapshot<L>,
    start: int,
    end: int,
)
    ensures
        start <= s.timestamp < end ==> load::loads_between(samples.push(s), start, end)
            == load::loads_between(samples, start, end).push(s.load),
        !(start <= s.timestamp < end) ==> load::loads_between(samples.push(s), start, end)
            == load::loads_between(samples, start, end),
        load::loads_between(Seq::<TeamLoadSnapshot<L>>::empty(), start, end).len() == 0,
{
    assert(samples.push(s).drop_last() =~= samples);
}

/// A window ends at `now` and is as long as asked for, as far as there was time.
pub proof fn law_windows_have_their_length(now: u64, seconds: u64)
    ensures
        now >= seconds ==> now - load::window_start(now, seconds) == seconds,
        now < seconds ==> load::window_start(now, seconds) == 0,
{
}

/// A higher load is drawn by another character, up to five fifths.
pub proof fn law_levels_are_told_apart(a: usize, b: usize)
    requires
        a < b,
    ensures
        a < 5 ==> load::level_char(a) != load::level_char(b),
        a >= 5 ==> load::level_char(a) == load::level_char(b),
        load::level_char(0) == ' ',
        load::level_char(1) == '.',
        load::level_char(2) == ':',
        load::level_char(3) == '=',
        load::level_char(4) == '#',
        load::level_char(5) == '@',
{
}

// ---------------------------------------------------------------------------
// The dashboard

/// One more session adds its numbers to the totals.
pub proof fn law_one_more_session<F, Q: Fn(i64, i64) -> F, P: Fn(i64, i64) -> F>(
    before: DashboardMetrics<F, i64>,
    now: DashboardMetrics<F, i64>,
    rows: TelemetryRows<F>,
    more: TelemetryRows<F>,
    s: SessionSummaryRow,
    mean: Q,
    percent: P,
)
    requires
        dashboard::has_session_totals(before, rows, mean, percent),
        dashboard::has_session_totals(now, more, mean, percent),
        more.sessions@ == rows.sessions@.push(s),
    ensures
        now.sessions_count == before.sessions_count + 1,
        now.total_tasks_completed == before.total_tasks_completed + s.tasks_completed,
        now.total_merges == before.total_merges + s.total_merges,
        now.total_events == before.total_events + s.total_events,
        now.discord_events_sent == before.discord_events_sent + s.discord_events_sent,
        now.verification_pass_count == before.verification_pass_count + s.verification_passes,
        now.verification_fail_count == before.verification_fail_count + s.verification_failures,
        now.notification_isolation_count == before.notification_isolation_count
            + s.notification_isolations,
{
    assert(rows.sessions@.push(s).drop_last() =~= rows.sessions@);
}

/// Where `percent` computes `share`, the rates of the sessions are the share of
/// merges in completed tasks and the share of passes in all verifications; each
/// is unknown without anything to take a share of.
pub proof fn law_session_rates_are_shares<F, Q: Fn(i64, i64) -> F, P: Fn(i64, i64) -> F>(
    m: DashboardMetrics<F, i64>,
    rows: TelemetryRows<F>,
    mean: Q,
    percent: P,
    share: spec_fn(int, int) -> F,
)
    requires
        dashboard::rows_fit(rows),
        dashboard::has_session_totals(m, rows, mean, percent),
        forall|a: i64, b: i64, x: F| #[trigger]
            call_ensures(percent, (a, b), x) ==> x == share(a as int, b as int),
    ensures
        m.merge_success_rate == (if m.total_tasks_completed > 0 {
            Some(share(m.total_merges as int, m.total_tasks_completed as int))
        } else {
            None
        }),
        m.verification_pass_rate == (if m.verification_pass_count + m.verification_fail_count > 0 {
            Some(
                share(
                    m.verification_pass_count as int,
                    m.verification_pass_count + m.verification_fail_count,
                ),
            )
        } else {
            None
        }),
{
}

/// Where `percent` computes `share`, the rates of reviews are shares of what
/// was merged or decided.
pub proof fn law_review_rates_are_shares<F, P: Fn(i64, i64) -> F>(
    m: DashboardMetrics<F, i64>,
    rows: TelemetryRows<F>,
    percent: P,
    share: spec_fn(int, int) -> F,
)
    requires
        dashboard::rows_fit(rows),
        dashboard::has_review(m, rows.review, percent),
        forall|a: i64, b: i64, x: F| #[trigger]
            call_ensures(percent, (a, b), x) ==> x == share(a as int, b as int),
    ensures
        ({
            let merged = m.auto_merge_count + m.manual_merge_count;
            let decided = m.accepted_decision_count + m.rejected_decision_count;
            &&& m.auto_merge_rate == (if merged > 0 {
                Some(share(m.auto_merge_count as int, merged))
            } else {
                None
            })
            &&& m.rework_rate == (if merged + m.rework_count > 0 {
                Some(share(m.rework_count as int, merged + m.rework_count))
            } else {
                None
            })
            &&& m.decision_accept_rate == (if decided > 0 {
                Some(share(m.accepted_decision_count as int, decided))
            } else {
                None
            })
        }),
{
}

/// The work of agents and the times of tasks, as telemetry that grows by one
/// agent: its row is added at the end, and its completions and failures count.
pub proof fn law_one_more_agent(rows: Seq<AgentMetricsRow>, a: AgentMetricsRow)
    ensures
        dashboard::total(rows.push(a), |x: AgentMetricsRow| x.completions) == dashboard::total(
            rows,
            |x: AgentMetricsRow| x.completions,
        ) + a.completions,
        dashboard::total(rows.push(a), |x: AgentMetricsRow| x.failures) == dashboard::total(
            rows,
            |x: AgentMetricsRow| x.failures,
        ) + a.failures,
{
    assert(rows.push(a).drop_last() =~= rows);
}

/// Where `percent` computes `share`, completions and failures are rated among
/// all that was finished, and an agent's idle polls among all its polls.
pub proof fn law_agent_rates_are_shares<F, Q: Fn(i64, i64) -> F, P: Fn(i64, i64) -> F>(
    m: DashboardMetrics<F, i64>,
    rows: TelemetryRows<F>,
    mean: Q,
    percent: P,
    share: spec_fn(int, int) -> F,
)
    requires
        dashboard::rows_fit(rows),
        dashboard::has_rates(m, rows, mean, percent),
        forall|a: i64, b: i64, x: F| #[trigger]
            call_ensures(percent, (a, b), x) ==> x == share(a as int, b as int),
    ensures
        ({
            let done = dashboard::total(rows.agents@, |x: AgentMetricsRow| x.completions);
            let failed = dashboard::total(rows.agents@, |x: AgentMetricsRow| x.failures);
            &&& m.completion_rate == (if done + failed > 0 {
                Some(share(done, done + failed))
            } else {
                None
            })
            &&& m.failure_rate == (if done + failed > 0 {
                Some(share(failed, done + failed))
            } else {
                None
            })
            &&& m.agent_rows@.len() == rows.agents@.len()
            &&& forall|i: int|
                0 <= i < rows.agents@.len() ==> {
                    let polls = rows.agents@[i].idle_polls + rows.agents@[i].working_polls;
                    &&& (#[trigger] m.agent_rows@[i]).role == rows.agents@[i].role
                    &&& m.agent_rows@[i].completions == rows.agents@[i].completions
                    &&& m.agent_rows@[i].failures == rows.agents@[i].failures
                    &&& m.agent_rows@[i].restarts == rows.agents@[i].restarts
                    &&& m.agent_rows@[i].idle_pct == (if polls > 0 {
                        Some(share(rows.agents@[i].idle_polls as int, polls))
                    } else {
                        None
                    })
                }
        }),
{
    let done = dashboard::total(rows.agents@, |x: AgentMetricsRow| x.completions);
    let failed = dashboard::total(rows.agents@, |x: AgentMetricsRow| x.failures);
    assert(rows.agents@.take(rows.agents@.len() as int) =~= rows.agents@);
    assert(dashboard::fits(done) && dashboard::fits(failed));
    assert forall|i: int| 0 <= i < rows.agents@.len() implies dashboard::fits(
        (#[trigger] rows.agents@[i]).idle_polls + rows.agents@[i].working_polls,
    ) by {}
    assert forall|i: int| 0 <= i < rows.agents@.len() implies dashboard::is_agent_row(
        percent,
        rows.agents@[i],
        #[trigger] m.agent_rows@[i],
    ) by {}
}

/// A task adds its cycle time to the times exactly if it was completed after it
/// was started; the least and the greatest time bound all of them.
pub proof fn law_cycle_times_are_of_completed_tasks(rows: Seq<TaskTimesRow>, t: TaskTimesRow)
    ensures
        ({
            let before = dashboard::cycle_times(rows);
            let now = dashboard::cycle_times(rows.push(t));
            if t.started_at is Some && t.completed_at is Some && t.started_at->Some_0
                < t.completed_at->Some_0 {
                let time = t.completed_at->Some_0 - t.started_at->Some_0;
                now == before.push(time) && dashboard::sum(now) == dashboard::sum(before) + time
            } else {
                now == before
            }
        }),
        dashboard::cycle_times(Seq::empty()).len() == 0,
        dashboard::sum(Seq::empty()) == 0,
{
    assert(rows.push(t).drop_last() =~= rows);
    let before = dashboard::cycle_times(rows);
    if let Some(time) = dashboard::cycle_time(t) {
        assert(before.push(time).drop_last() =~= before);
    }
}

// ---------------------------------------------------------------------------
// Rankings

/// The ranking of engineers names everybody who completed a task, once, and
/// nobody else. More completed tasks stand above fewer, and of two with as many
/// the lesser name stands above. An average is known exactly if there is a
/// sample, and is the mean of the samples.
pub proof fn law_engineers_are_ranked<A, M: Fn(i64, usize) -> A>(
    rs: Seq<TaskCycleTimeRecord>,
    mean: M,
    summaries: Seq<EngineerThroughputSummary<A>>,
    i: int,
    j: int,
)
    requires
        throughput::is_throughput(rs, mean, summaries),
        0 <= i < j < summaries.len(),
    ensures
        summaries[i].completed_tasks >= summaries[j].completed_tasks,
        summaries[i].completed_tasks == summaries[j].completed_tasks ==> text::lex_lt(
            summaries[i].engineer@,
            summaries[j].engineer@,
        ),
        summaries[i].engineer@ != summaries[j].engineer@,
        summaries[i].completed_tasks == throughput::totals_of(
            rs,
            summaries[i].engineer@,
        ).completed_tasks,
        summaries[i].completed_tasks > 0,
        summaries[i].average_cycle_time_minutes is Some <==> throughput::totals_of(
            rs,
            summaries[i].engineer@,
        ).cycle_samples > 0,
        summaries[i].average_lead_time_minutes is Some <==> throughput::totals_of(
            rs,
            summaries[i].engineer@,
        ).lead_samples > 0,
        forall|k: int|
            0 <= k < rs.len() && (#[trigger] rs[k]).completed_at is Some && rs[k].engineer is Some
                ==> exists|n: int|
                0 <= n < summaries.len() && (#[trigger] summaries[n]).engineer@
                    == rs[k].engineer->Some_0@,
{
    text::law_dictionary_order(
        summaries[i].engineer@,
        summaries[i].engineer@,
        summaries[i].engineer@,
    );
    assert(throughput::stands_above(summaries[i], summaries[j]));
    let e = summaries[i].engineer@;
    let k = choose|k: int| 0 <= k < rs.len() && throughput::completed_by(#[trigger] rs[k], e);
    lemma_counted(rs, e, k);
    assert forall|k: int|
        0 <= k < rs.len() && (#[trigger] rs[k]).completed_at is Some
            && rs[k].engineer is Some implies exists|n: int|
        0 <= n < summaries.len() && (#[trigger] summaries[n]).engineer@
            == rs[k].engineer->Some_0@ by {
        assert(throughput::completed_by(rs[k], rs[k].engineer->Some_0@));
        assert(throughput::is_finisher(rs, rs[k].engineer->Some_0@));
    }
}

proof fn lemma_counted(rs: Seq<TaskCycleTimeRecord>, engineer: Seq<char>, k: int)
    requires
        0 <= k < rs.len(),
        throughput::completed_by(rs[k], engineer),
    ensures
        throughput::totals_of(rs, engineer).completed_tasks > 0,
    decreases rs.len(),
{
    if k < rs.len() - 1 {
        lemma_counted(rs.drop_last(), engineer, k);
    }
}

/// The averages by priority name every priority of a task with a cycle time,
/// once, in the order of a dictionary, with the number of such tasks.
pub proof fn law_priorities_are_averaged<A, M: Fn(i64, usize) -> A>(
    rs: Seq<TaskCycleTimeRecord>,
    mean: M,
    summaries: Seq<PriorityCycleTimeSummary<A>>,
    share: spec_fn(int, int) -> A,
)
    requires
        metrics::are_priority_averages(rs, mean, summaries),
        metrics::priority_sums_fit(rs),
        rs.len() <= usize::MAX,
        forall|s: i64, n: usize, x: A| #[trigger]
            call_ensures(mean, (s, n), x) ==> x == share(s as int, n as int),
    ensures
        forall|i: int, j: int|
            0 <= i < j < summaries.len() ==> text::lex_lt(
                (#[trigger] summaries[i]).priority@,
                (#[trigger] summaries[j]).priority@,
            ),
        forall|k: int|
            0 <= k < rs.len() && (#[trigger] rs[k]).cycle_time_minutes is Some ==> exists|n: int|
                0 <= n < summaries.len() && (#[trigger] summaries[n]).priority@
                    == metrics::priority_name(rs[k].priority@),
        forall|i: int|
            0 <= i < summaries.len() ==> {
                let p = (#[trigger] summaries[i]).priority@;
                &&& summaries[i].completed_tasks == metrics::priority_count(rs, p)
                &&& summaries[i].average_cycle_time_minutes == share(
                    metrics::priority_sum(rs, p),
                    metrics::priority_count(rs, p) as int,
                )
            },
{
    assert forall|k: int|
        0 <= k < rs.len() && (#[trigger] rs[k]).cycle_time_minutes is Some implies exists|n: int|
        0 <= n < summaries.len() && (#[trigger] summaries[n]).priority@ == metrics::priority_name(
            rs[k].priority@,
        ) by {
        let p = metrics::priority_name(rs[k].priority@);
        assert(metrics::has_priority(rs[k], p));
        assert(metrics::is_priority(rs, p));
    }
    assert forall|i: int| 0 <= i < summaries.len() implies {
        let p = (#[trigger] summaries[i]).priority@;
        &&& summaries[i].completed_tasks == metrics::priority_count(rs, p)
        &&& summaries[i].average_cycle_time_minutes == share(
            metrics::priority_sum(rs, p),
            metrics::priority_count(rs, p) as int,
        )
    } by {
        let p = summaries[i].priority@;
        assert(rs.take(rs.len() as int) =~= rs);
        assert(i64::MIN <= metrics::priority_sum(rs.take(rs.len() as int), p) <= i64::MAX);
        lemma_count_bound(rs, p);
    }
}

proof fn lemma_count_bound(rs: Seq<TaskCycleTimeRecord>, p: Seq<char>)
    ensures
        metrics::priority_count(rs, p) <= rs.len(),
    decreases rs.len(),
{
    if rs.len() > 0 {
        lemma_count_bound(rs.drop_last(), p);
    }
}

/// Records come in the order of the numbers of their tasks.
pub proof fn law_records_are_in_order(tasks: Seq<BoardTask>)
    requires
        tasks.len() <= usize::MAX,
    ensures
        metrics::by_id(tasks).len() == tasks.len(),
        forall|i: int, j: int|
            0 <= i < j < tasks.len() ==> (#[trigger] metrics::by_id(tasks)[i]).id <= (
            #[trigger] metrics::by_id(tasks)[j]).id,
        forall|k: int|
            0 <= k < tasks.len() ==> metrics::by_id(tasks).contains(#[trigger] tasks[k]),
{
    let keys = metrics::id_keys(tasks);
    order::law_stable_order(keys);
    let o = order::stable_order(keys);
    let sorted = metrics::by_id(tasks);
    assert forall|i: int, j: int| 0 <= i < j < tasks.len() implies (#[trigger] sorted[i]).id <= (
    #[trigger] sorted[j]).id by {
        assert(order::key_le(keys[o[i] as int], keys[o[j] as int]));
    }
    assert forall|k: int| 0 <= k < tasks.len() implies sorted.contains(#[trigger] tasks[k]) by {
        assert(o.contains(k as usize));
        let i = choose|i: int| 0 <= i < o.len() && o[i] == k as usize;
        assert(sorted[i] == tasks[k]);
    }
}

// ---------------------------------------------------------------------------
// The graph

/// The graph of the load has one character for every two minutes of the hour. A
/// span without samples looks like the span before it, and one with samples as
/// the mean of these.
pub proof fn law_graph_shows_the_hour<L, M: Fn(Vec<L>) -> L, V: Fn(L) -> usize>(
    samples: Seq<TeamLoadSnapshot<L>>,
    now: u64,
    zero: L,
    mean: M,
    level: V,
    line: Seq<char>,
    average: spec_fn(Seq<L>) -> L,
    fifths: spec_fn(L) -> usize,
)
    requires
        load::is_graph(samples, now, zero, mean, level, line),
        forall|v: Vec<L>, x: L| #[trigger] call_ensures(mean, (v,), x) ==> x == average(v@),
        forall|l: L, n: usize| #[trigger] call_ensures(level, (l,), n) ==> n == fifths(l),
    ensures
        line.len() == 30,
        forall|k: int|
            0 <= k < 30 ==> {
                let taken = load::loads_between(
                    samples,
                    load::bucket_start(now, k),
                    load::bucket_end(now, k),
                );
                &&& taken.len() > 0 ==> #[trigger] line[k] == load::level_char(
                    fifths(average(taken)),
                )
                &&& taken.len() == 0 && k > 0 ==> line[k] == line[k - 1]
                &&& taken.len() == 0 && k == 0 ==> line[k] == load::level_char(fifths(zero))
            },
        now >= 3600 ==> load::bucket_start(now, 0) == now - 3600,
        forall|k: int|
            0 <= k < 29 ==> #[trigger] load::bucket_end(now, k) == load::bucket_start(now, k + 1)
                && load::bucket_end(now, k) == load::bucket_start(now, k) + 120,
        load::bucket_end(now, 29) == now + 1,
{
    let values = choose|values: Seq<L>|
        {
            &&& values.len() == 30
            &&& #[trigger] load::are_values(samples, now, zero, mean, values)
            &&& load::is_line(level, values, line)
        };
    assert forall|k: int| 0 <= k < 30 implies #[trigger] line[k] == load::level_char(
        fifths(values[k]),
    ) by {
        assert(load::is_point(level, values[k], line[k]));
    }
    assert forall|k: int| 0 <= k < 30 implies {
        let taken = load::loads_between(
            samples,
            load::bucket_start(now, k),
            load::bucket_end(now, k),
        );
        &&& taken.len() > 0 ==> #[trigger] line[k] == load::level_char(fifths(average(taken)))
        &&& taken.len() == 0 && k > 0 ==> line[k] == line[k - 1]
        &&& taken.len() == 0 && k == 0 ==> line[k] == load::level_char(fifths(zero))
    } by {
        let v = values[k];
        assert(line[k] == load::level_char(fifths(v)));
        if k > 0 {
            assert(line[k - 1] == load::level_char(fifths(values[k - 1])));
        }
        let taken = load::bucket(samples, now, k);
        if taken.len() > 0 {
            assert(load::is_mean(mean, taken, v));
        }
    }
}

/// The dashboard takes over the tables of the telemetry as they are; what was
/// completed per hour only if cycle times are known.
pub proof fn law_tables_are_taken_over<F>(m: DashboardMetrics<F, i64>, rows: TelemetryRows<F>)
    requires
        dashboard::has_tables(m, rows),
    ensures
        m.merge_queue_depth == rows.merge_queue_depth,
        m.non_engineer_stalls == rows.non_engineer_stalls,
        m.cycle_time_by_priority == rows.cycle_time_by_priority,
        m.engineer_throughput == rows.engineer_throughput,
        rows.has_cycle_times ==> m.tasks_completed_per_hour == rows.hourly,
        !rows.has_cycle_times ==> m.tasks_completed_per_hour@.len() == 0,
        m.longest_running_tasks@.len() == 0,
        m.latest_release is None,
{
}

/// The counts on merges, decisions, rework and verifications are those of the
/// reviews.
pub proof fn law_review_counts_are_taken_over<F, P: Fn(i64, i64) -> F>(
    m: DashboardMetrics<F, i64>,
    v: ReviewMetricsRow<F>,
    percent: P,
)
    requires
        dashboard::has_review(m, v, percent),
    ensures
        m.auto_merge_count == v.auto_merge_count,
        m.manual_merge_count == v.manual_merge_count,
        m.direct_root_merge_count == v.direct_root_merge_count,
        m.isolated_integration_merge_count == v.isolated_integration_merge_count,
        m.direct_root_failure_count == v.direct_root_failure_count,
        m.isolated_integration_failure_count == v.isolated_integration_failure_count,
        m.rework_count == v.rework_count,
        m.accepted_decision_count == v.accepted_decision_count,
        m.rejected_decision_count == v.rejected_decision_count,
        m.rejection_reasons == v.rejection_reasons,
        m.avg_review_latency_secs == v.avg_review_latency_secs,
        m.post_merge_verify_pass_count == v.post_merge_verify_pass_count,
        m.post_merge_verify_fail_count == v.post_merge_verify_fail_count,
        m.post_merge_verify_skip_count == v.post_merge_verify_skip_count,
{
}

} // verus!
