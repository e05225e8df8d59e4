//! Learnings from completed tasks, and the context that a new assignment gets
//! from them.

use std::collections::HashMap;

use vstd::prelude::*;
use vstd::std_specs::hash::*;
use vstd::string::*;

use crate::clock::now_rfc3339;
use crate::jsonl;
use crate::jsonl::read_records;
use crate::merge::git_ops;
use crate::merge::git_ops::parse_u32;
use crate::order;
use crate::paths;
use crate::paths::joined;
use crate::ranking;
use crate::ranking::{rank_by, RankKey};
use crate::relevance;
use crate::relevance::{
    count_common, count_occurring, extract_keywords, extract_path_hints, lower_all, parent_dirs,
};
use crate::text;
use crate::text::{
    chars_of, clone_strings, copy, decimal_string, is_among, same, sorted_distinct, trimmed_str,
};

verus! {

pub const MAX_RELEVANT_LEARNINGS: usize = 3;

pub const MAX_RELATED_TASKS: usize = 3;

pub const MAX_FILE_PREDICTIONS: usize = 5;

pub const MAX_FAILURE_PATTERNS: usize = 2;

pub const MAX_CONTEXT_WORDS: usize = 500;

/// What is read of a task of the board.
#[derive(Clone, Debug)]
pub struct Task {
    pub id: u32,
    pub title: String,
    pub description: String,
    pub status: String,
    pub tags: Vec<String>,
    /// When the task was completed, as its file says.
    pub completed: Option<String>,
}

/// What the telemetry says about a task.
#[derive(Clone, Copy, Debug, PartialEq, Eq, Structural)]
pub struct TaskMetricsSummary {
    pub retries: i64,
    pub escalations: i64,
    pub context_restart_count: i64,
    pub completed_at: Option<i64>,
}

impl Default for TaskMetricsSummary {
    fn default() -> (r: Self)
        ensures
            r == no_metrics(),
    {
        TaskMetricsSummary {
            retries: 0,
            escalations: 0,
            context_restart_count: 0,
            completed_at: None,
        }
    }
}

/// What holds of a task without telemetry.
pub open spec fn no_metrics() -> TaskMetricsSummary {
    TaskMetricsSummary { retries: 0, escalations: 0, context_restart_count: 0, completed_at: None }
}

/// A task of the board with what else is known of it.
#[derive(Clone, Debug)]
pub struct Candidate {
    pub task: Task,
    pub changed_paths: Vec<String>,
    /// The first line of the commit's message.
    pub git_summary: Option<String>,
}

/// A completed task that resembles the one at hand.
#[derive(Clone, Copy, Debug, PartialEq, Eq, Structural)]
pub struct RelatedTaskContext {
    /// Its position among the candidates.
    pub candidate: usize,
    pub score: usize,
    pub metrics: TaskMetricsSummary,
}

/// What was learned from a task.
#[derive(Clone, Debug)]
pub struct LearningEntry {
    pub task_id: u32,
    pub title: String,
    pub summary: String,
    pub tags: Vec<String>,
    pub keywords: Vec<String>,
    pub engineer: String,
    pub completed_at: String,
}

/// A row of the telemetry on tasks.
#[derive(Clone, Debug)]
pub struct TaskMetricsRow {
    pub task_id: String,
    pub metrics: TaskMetricsSummary,
}

// ---------------------------------------------------------------------------
// Recording

/// Where the learnings of a project are.
pub open spec fn learnings_path(project_root: Seq<char>) -> Seq<char> {
    paths::join_path(
        paths::join_path(paths::join_path(project_root, ".batty"@), "learnings"@),
        "task_learnings.jsonl"@,
    )
}

/// Where the learnings of a project are.
pub fn task_learnings_path(project_root: &str) -> (r: String)
    ensures
        r@ == learnings_path(project_root@),
{
    joined(
        joined(joined(project_root, ".batty").as_str(), "learnings").as_str(),
        "task_learnings.jsonl",
    )
}

/// This is what is learned from the task: the keywords of title and
/// description are there, each once, in the order of a dictionary.
pub open spec fn is_learning(
    e: LearningEntry,
    task: Task,
    engineer: Seq<char>,
    summary: Seq<char>,
) -> bool {
    &&& e.task_id == task.id
    &&& e.title@ == task.title@
    &&& e.summary@ == text::trim(summary)
    &&& e.tags@ == task.tags@
    &&& e.engineer@ == engineer
    &&& text::is_increasing(text::views(e.keywords@))
    &&& forall|w: Seq<char>| #[trigger]
        text::views(e.keywords@).contains(w) <==> relevance::keywords(task.title@).contains(w)
            || relevance::keywords(task.description@).contains(w)
}

/// What is learned from a task, as of `now` where its file does not say when
/// it was completed.
pub fn completion_learning_at(task: &Task, engineer: &str, summary: &str, now: &str) -> (r:
    LearningEntry)
    ensures
        is_learning(r, *task, engineer@, summary@),
        r.completed_at@ == (match task.completed {
            Some(c) => c@,
            None => now@,
        }),
{
    let mut words: Vec<String> = extract_keywords(task.title.as_str());
    let ghost first = text::views(words@);
    let mut more: Vec<String> = extract_keywords(task.description.as_str());
    let ghost second = text::views(more@);
    let ghost w0 = words@;
    let ghost m0 = more@;
    words.append(&mut more);
    let keywords: Vec<String> = sorted_distinct(&words);
    proof {
        assert(words@ == w0 + m0);
        assert(text::views(words@) =~= first + second);
        assert forall|w: Seq<char>| #[trigger]
            text::views(keywords@).contains(w) <==> first.contains(w) || second.contains(w) by {
            let all = first + second;
            assert(text::views(keywords@).contains(w) <==> all.contains(w));
            if first.contains(w) {
                let k = choose|k: int| 0 <= k < first.len() && first[k] == w;
                assert(all[k] == w);
            }
            if second.contains(w) {
                let k = choose|k: int| 0 <= k < second.len() && second[k] == w;
                assert(all[first.len() + k] == w);
            }
            if all.contains(w) {
                let k = choose|k: int| 0 <= k < all.len() && all[k] == w;
                if k < first.len() {
                    assert(first[k] == w);
                } else {
                    assert(second[k - first.len()] == w);
                }
            }
        }
    }
    let completed_at: String = match &task.completed {
        Some(c) => copy(c.as_str()),
        None => copy(now),
    };
    LearningEntry {
        task_id: task.id,
        title: copy(task.title.as_str()),
        summary: trimmed_str(summary),
        tags: clone_strings(&task.tags),
        keywords,
        engineer: copy(engineer),
        completed_at,
    }
}

/// What is learned from a task, by the clock where its file does not say when
/// it was completed.
pub fn append_task_completion_learning(task: &Task, engineer: &str, summary: &str) -> (r:
    LearningEntry)
    ensures
        is_learning(r, *task, engineer@, summary@),
        task.completed matches Some(c) ==> r.completed_at@ == c@,
{
    let now: String = now_rfc3339();
    completion_learning_at(task, engineer, summary, now.as_str())
}

/// Reads the learnings of a project. Blank lines and lines that hold no
/// learning are skipped.
pub fn load_task_learnings<F: Fn(String) -> Option<LearningEntry>>(
    contents: &str,
    parse: &F,
) -> (r: Vec<LearningEntry>)
    requires
        forall|s: String| #[trigger] call_requires(*parse, (s,)),
    ensures
        jsonl::is_reading(contents@, *parse, r@),
{
    read_records(contents, parse)
}

// ---------------------------------------------------------------------------
// Related tasks

/// The text that the keywords of a task are taken from.
pub open spec fn task_text(task: Task) -> Seq<char> {
    task.title@ + "\n"@ + task.description@
}

fn text_of_task(task: &Task) -> (r: String)
    ensures
        r@ == task_text(*task),
{
    copy(task.title.as_str()).concat("\n").concat(task.description.as_str())
}

/// The scores of a task can be counted.
pub open spec fn is_countable(task: Task) -> bool {
    4 * task.tags@.len() + 4 * task.description@.len() + task.title@.len() + 1 <= usize::MAX
}

/// How much a completed task resembles this one: four for each tag that they
/// share, three for each directory, one for each keyword.
pub open spec fn resemblance(task: Task, candidate: Candidate) -> nat {
    relevance::common(
        relevance::lowered(text::views(task.tags@)),
        relevance::lowered(text::views(candidate.task.tags@)),
    ) * 4 + relevance::common(
        relevance::directories(relevance::path_hints(task.description@)),
        relevance::directories(text::views(candidate.changed_paths@)),
    ) * 3 + relevance::common(
        relevance::keywords(task_text(task)),
        relevance::keywords(task_text(candidate.task)),
    )
}

proof fn lemma_words_bound(s: Seq<char>)
    ensures
        text::word_state(s).0.len() + text::word_state(s).1.len() <= s.len(),
    decreases s.len(),
{
    if s.len() > 0 {
        lemma_words_bound(s.drop_last());
    }
}

proof fn lemma_filter_bound(s: Seq<Seq<char>>, p: spec_fn(Seq<char>) -> bool)
    ensures
        s.filter(p).len() <= s.len(),
    decreases s.len(),
{
    reveal(Seq::filter);
    if s.len() > 0 {
        lemma_filter_bound(s.drop_last(), p);
    }
}

proof fn lemma_distinct_bound(s: Seq<Seq<char>>)
    ensures
        text::distinct(s).len() <= s.len(),
    decreases s.len(),
{
    if s.len() > 0 {
        lemma_distinct_bound(s.drop_last());
    }
}

proof fn lemma_keywords_bound(s: Seq<char>)
    ensures
        relevance::keywords(s).len() <= s.len(),
{
    lemma_words_bound(text::gapped(s));
    let ws = text::words(text::gapped(s));
    let p = |w: Seq<char>| relevance::is_keyword(w);
    lemma_filter_bound(ws, p);
    lemma_distinct_bound(ws.filter(p));
}

/// How much a completed task resembles this one.
pub fn related_task_score(task: &Task, candidate: &Candidate) -> (r: usize)
    requires
        is_countable(*task),
    ensures
        r == resemblance(*task, *candidate),
{
    proof {
        reveal_strlit("\n");
        lemma_keywords_bound(task_text(*task));
    }
    let tags: Vec<String> = lower_all(&task.tags);
    let hints: Vec<String> = extract_path_hints(task.description.as_str());
    let dirs: Vec<String> = parent_dirs(&hints);
    let words: Vec<String> = extract_keywords(text_of_task(task).as_str());
    assert(text::views(tags@).len() == tags@.len());
    assert(text::views(words@).len() == words@.len());
    let tag_matches: usize = count_common(&tags, &lower_all(&candidate.task.tags));
    let dir_matches: usize = count_common(&dirs, &parent_dirs(&candidate.changed_paths));
    let keyword_matches: usize = count_common(
        &words,
        &extract_keywords(text_of_task(&candidate.task).as_str()),
    );
    tag_matches * 4 + dir_matches * 3 + keyword_matches
}

/// The telemetry by task; of two rows for one task the later counts, and rows
/// without a task's number do not.
pub open spec fn metrics_map(rows: Seq<TaskMetricsRow>) -> Map<u32, TaskMetricsSummary>
    decreases rows.len(),
{
    if rows.len() == 0 {
        Map::empty()
    } else {
        match git_ops::parse_u32_spec(rows.last().task_id@) {
            Some(id) => metrics_map(rows.drop_last()).insert(id, rows.last().metrics),
            None => metrics_map(rows.drop_last()),
        }
    }
}

/// The telemetry by task.
pub fn load_task_metrics(rows: &Vec<TaskMetricsRow>) -> (r: HashMap<u32, TaskMetricsSummary>)
    ensures
        r@ == metrics_map(rows@),
{
    broadcast use group_hash_axioms;

    let mut out: HashMap<u32, TaskMetricsSummary> = HashMap::new();
    let mut i: usize = 0;
    assert(out@ == metrics_map(rows@.take(0)));
    while i < rows.len()
        invariant
            i <= rows@.len(),
            out@ == metrics_map(rows@.take(i as int)),
        decreases rows@.len() - i,
    {
        broadcast use group_hash_axioms;

        assert(rows@.take(i + 1).drop_last() == rows@.take(i as int));
        match parse_u32(&chars_of(rows[i].task_id.as_str())) {
            Some(id) => {
                out.insert(id, rows[i].metrics);
            },
            None => {},
        }
        i += 1;
    }
    assert(rows@.take(i as int) == rows@);
    out
}

/// The completed tasks among the first `n` candidates that resemble this one,
/// and the telemetry that is left for the others.
pub open spec fn related_state(
    task: Task,
    candidates: Seq<Candidate>,
    metrics: Map<u32, TaskMetricsSummary>,
    n: int,
) -> (Seq<RelatedTaskContext>, Map<u32, TaskMetricsSummary>)
    decreases n,
{
    if n <= 0 {
        (Seq::empty(), metrics)
    } else {
        let (out, left) = related_state(task, candidates, metrics, n - 1);
        let c = candidates[n - 1];
        if c.task.id == task.id || c.task.status@ != "done"@ || resemblance(task, c) == 0 {
            (out, left)
        } else {
            (
                out.push(
                    RelatedTaskContext {
                        candidate: (n - 1) as usize,
                        score: resemblance(task, c) as usize,
                        metrics: if left.contains_key(c.task.id) {
                            left[c.task.id]
                        } else {
                            no_metrics()
                        },
                    },
                ),
                left.remove(c.task.id),
            )
        }
    }
}

/// What related tasks are ranked by.
pub open spec fn related_key(candidates: Seq<Candidate>, r: RelatedTaskContext) -> RankKey {
    RankKey {
        score: r.score,
        at: r.metrics.completed_at,
        stamp: candidates[r.candidate as int].task.completed,
        id: candidates[r.candidate as int].task.id,
    }
}

/// The keys of some related tasks.
pub open spec fn related_keys(candidates: Seq<Candidate>, rs: Seq<RelatedTaskContext>) -> Seq<
    RankKey,
> {
    Seq::new(rs.len(), |i: int| related_key(candidates, rs[i]))
}

/// At most `limit` of them.
pub open spec fn at_most<A>(s: Seq<A>, limit: nat) -> Seq<A> {
    if s.len() <= limit {
        s
    } else {
        s.take(limit as int)
    }
}

/// The completed tasks that resemble this one most.
pub open spec fn most_related(
    task: Task,
    candidates: Seq<Candidate>,
    metrics: Map<u32, TaskMetricsSummary>,
    limit: nat,
) -> Seq<RelatedTaskContext> {
    let all = related_state(task, candidates, metrics, candidates.len() as int).0;
    at_most(order::pick(all, ranking::ranking(related_keys(candidates, all))), limit)
}

fn clone_stamp(s: &Option<String>) -> (r: Option<String>)
    ensures
        r == *s,
{
    match s {
        Some(x) => Some(x.clone()),
        None => None,
    }
}

/// The completed tasks that resemble this one most, the best first: by score,
/// then by what was completed later, then by number.
pub fn related_completed_tasks(
    task: &Task,
    candidates: &Vec<Candidate>,
    metrics: HashMap<u32, TaskMetricsSummary>,
    limit: usize,
) -> (r: Vec<RelatedTaskContext>)
    requires
        is_countable(*task),
    ensures
        r@ == most_related(*task, candidates@, metrics@, limit as nat),
{
    broadcast use group_hash_axioms;

    let ghost start = metrics@;
    let mut left: HashMap<u32, TaskMetricsSummary> = metrics;
    let mut all: Vec<RelatedTaskContext> = Vec::new();
    let mut keys: Vec<RankKey> = Vec::new();
    let mut i: usize = 0;
    while i < candidates.len()
        invariant
            i <= candidates@.len(),
            is_countable(*task),
            (all@, left@) == related_state(*task, candidates@, start, i as int),
            keys@ == related_keys(candidates@, all@),
        decreases candidates@.len() - i,
    {
        broadcast use group_hash_axioms;

        let c: &Candidate = &candidates[i];
        if c.task.id != task.id && same(c.task.status.as_str(), "done") {
            let score: usize = related_task_score(task, c);
            if score > 0 {
                let summary: TaskMetricsSummary = match left.remove(&c.task.id) {
                    Some(m) => m,
                    None => TaskMetricsSummary::default(),
                };
                let ghost before = all@;
                all.push(RelatedTaskContext { candidate: i, score, metrics: summary });
                keys.push(
                    RankKey {
                        score,
                        at: summary.completed_at,
                        stamp: clone_stamp(&c.task.completed),
                        id: c.task.id,
                    },
                );
                assert(keys@ =~= related_keys(candidates@, all@));
            }
        }
        i += 1;
    }
    let n: usize = all.len();
    let order: Vec<usize> = rank_by(&keys);
    proof {
        ranking::law_ranking_is_in_order(keys@);
    }
    let take: usize = if n <= limit {
        n
    } else {
        limit
    };
    let ghost ranked = order::pick(all@, order@);
    let mut out: Vec<RelatedTaskContext> = Vec::new();
    let mut k: usize = 0;
    while k < take
        invariant
            k <= take <= n,
            n == all@.len(),
            order@.len() == n,
            ranked == order::pick(all@, order@),
            forall|j: int| 0 <= j < n ==> (#[trigger] order@[j]) < n,
            out@ == ranked.take(k as int),
        decreases take - k,
    {
        out.push(all[order[k]]);
        k += 1;
        assert(ranked.take(k as int) == ranked.take(k - 1).push(ranked[k - 1]));
    }
    assert(ranked.take(n as int) == ranked);
    out
}

// ---------------------------------------------------------------------------
// Learnings

/// How much a learning fits a task: three for each of its tags, one for each
/// of its keywords that the task has.
pub open spec fn fitness(task: Task, e: LearningEntry) -> nat {
    relevance::occurring(
        relevance::lowered(text::views(e.tags@)),
        relevance::lowered(text::views(task.tags@)),
    ) * 3 + relevance::occurring(
        text::views(e.keywords@),
        relevance::keywords(task_text(task)),
    )
}

/// The fitness of every learning can be counted.
pub open spec fn are_countable(entries: Seq<LearningEntry>) -> bool {
    forall|i: int|
        0 <= i < entries.len() ==> 3 * (#[trigger] entries[i]).tags@.len()
            + entries[i].keywords@.len() <= usize::MAX
}

/// The positions below `n` of the learnings that fit, with their fitness.
pub open spec fn fitting(task: Task, entries: Seq<LearningEntry>, n: int) -> Seq<(usize, usize)>
    decreases n,
{
    if n <= 0 {
        Seq::empty()
    } else {
        let rest = fitting(task, entries, n - 1);
        let e = entries[n - 1];
        if e.task_id == task.id || fitness(task, e) == 0 {
            rest
        } else {
            rest.push((fitness(task, e) as usize, (n - 1) as usize))
        }
    }
}

/// What learnings are ranked by.
pub open spec fn learning_key(entries: Seq<LearningEntry>, f: (usize, usize)) -> RankKey {
    RankKey { score: f.0, at: None, stamp: Some(entries[f.1 as int].completed_at), id: 0 }
}

/// The keys of some fitting learnings.
pub open spec fn learning_keys(entries: Seq<LearningEntry>, fs: Seq<(usize, usize)>) -> Seq<
    RankKey,
> {
    Seq::new(fs.len(), |i: int| learning_key(entries, fs[i]))
}

/// The learnings that fit a task best.
pub open spec fn most_fitting(task: Task, entries: Seq<LearningEntry>, limit: nat) -> Seq<usize> {
    let all = fitting(task, entries, entries.len() as int);
    let ranked = order::pick(all, ranking::ranking(learning_keys(entries, all)));
    at_most(Seq::new(ranked.len(), |i: int| ranked[i].1), limit)
}

proof fn lemma_fitting_bound(task: Task, entries: Seq<LearningEntry>, n: int)
    requires
        0 <= n <= entries.len(),
        entries.len() <= usize::MAX,
    ensures
        forall|k: int|
            0 <= k < fitting(task, entries, n).len() ==> (#[trigger] fitting(task, entries, n)[k]).1
                < n,
    decreases n,
{
    if n > 0 {
        lemma_fitting_bound(task, entries, n - 1);
        let f0 = fitting(task, entries, n - 1);
        let f1 = fitting(task, entries, n);
        assert forall|k: int| 0 <= k < f1.len() implies (#[trigger] f1[k]).1 < n by {
            if k < f0.len() {
                assert(f1[k] == f0[k]);
            }
        }
    }
}

/// The positions of the learnings that fit a task best, the best first; of
/// two that fit alike, the one that was completed later.
pub fn relevant_learnings(task: &Task, entries: &Vec<LearningEntry>, limit: usize) -> (r: Vec<
    usize,
>)
    requires
        are_countable(entries@),
    ensures
        r@ == most_fitting(*task, entries@, limit as nat),
        forall|k: int| 0 <= k < r@.len() ==> (#[trigger] r@[k]) < entries@.len(),
{
    let words: Vec<String> = extract_keywords(text_of_task(task).as_str());
    let tags: Vec<String> = lower_all(&task.tags);
    let mut all: Vec<(usize, usize)> = Vec::new();
    let mut keys: Vec<RankKey> = Vec::new();
    let mut i: usize = 0;
    while i < entries.len()
        invariant
            i <= entries@.len(),
            are_countable(entries@),
            text::views(words@) == relevance::keywords(task_text(*task)),
            text::views(tags@) == relevance::lowered(text::views(task.tags@)),
            all@ == fitting(*task, entries@, i as int),
            keys@ == learning_keys(entries@, all@),
        decreases entries@.len() - i,
    {
        let e: &LearningEntry = &entries[i];
        if e.task_id != task.id {
            let own_tags: Vec<String> = lower_all(&e.tags);
            assert(text::views(own_tags@).len() == own_tags@.len());
            assert(text::views(e.tags@).len() == e.tags@.len());
            let tag_matches: usize = count_occurring(&own_tags, &tags);
            let keyword_matches: usize = count_occurring(&e.keywords, &words);
            assert(3 * entries@[i as int].tags@.len() + entries@[i as int].keywords@.len()
                <= usize::MAX);
            let score: usize = tag_matches * 3 + keyword_matches;
            if score > 0 {
                all.push((score, i));
                keys.push(
                    RankKey { score, at: None, stamp: Some(e.completed_at.clone()), id: 0 },
                );
                assert(keys@ =~= learning_keys(entries@, all@));
            }
        }
        i += 1;
    }
    let n: usize = all.len();
    let count: usize = entries.len();
    let order: Vec<usize> = rank_by(&keys);
    proof {
        ranking::law_ranking_is_in_order(keys@);
        lemma_fitting_bound(*task, entries@, count as int);
    }
    let take: usize = if n <= limit {
        n
    } else {
        limit
    };
    let ghost ranked = order::pick(all@, order@);
    let ghost chosen = Seq::new(ranked.len(), |i: int| ranked[i].1);
    let mut out: Vec<usize> = Vec::new();
    let mut k: usize = 0;
    while k < take
        invariant
            k <= take <= n,
            n == all@.len(),
            order@.len() == n,
            ranked == order::pick(all@, order@),
            chosen == Seq::new(ranked.len(), |i: int| ranked[i].1),
            forall|j: int| 0 <= j < n ==> (#[trigger] order@[j]) < n,
            forall|j: int| 0 <= j < n ==> (#[trigger] all@[j]).1 < entries@.len(),
            out@ == chosen.take(k as int),
            forall|j: int| 0 <= j < k ==> (#[trigger] out@[j]) < entries@.len(),
        decreases take - k,
    {
        let f: (usize, usize) = all[order[k]];
        out.push(f.1);
        k += 1;
        assert(chosen.take(k as int) == chosen.take(k - 1).push(chosen[k - 1]));
    }
    assert(chosen.take(n as int) == chosen);
    out
}

// ---------------------------------------------------------------------------
// Failures

/// The numbers of related tasks, as events name them.
pub open spec fn related_names(candidates: Seq<Candidate>, related: Seq<RelatedTaskContext>) -> Seq<
    Seq<char>,
> {
    Seq::new(
        related.len(),
        |i: int| text::decimal(candidates[related[i].candidate as int].task.id as nat),
    )
}

/// The related tasks are candidates.
pub open spec fn are_candidates(related: Seq<RelatedTaskContext>, n: nat) -> bool {
    forall|i: int| 0 <= i < related.len() ==> (#[trigger] related[i]).candidate < n
}

/// The numbers of related tasks, as events name them.
pub fn related_task_ids(candidates: &Vec<Candidate>, related: &Vec<RelatedTaskContext>) -> (r: Vec<
    String,
>)
    requires
        are_candidates(related@, candidates@.len()),
    ensures
        text::views(r@) == related_names(candidates@, related@),
{
    let ghost all = related_names(candidates@, related@);
    let mut out: Vec<String> = Vec::new();
    let mut i: usize = 0;
    while i < related.len()
        invariant
            i <= related@.len(),
            are_candidates(related@, candidates@.len()),
            all == related_names(candidates@, related@),
            text::views(out@) == all.take(i as int),
        decreases related@.len() - i,
    {
        assert(related@[i as int].candidate < candidates@.len());
        let ghost before = out@;
        let name: String = decimal_string(candidates[related[i].candidate].task.id as u64);
        let ghost shown = name@;
        out.push(name);
        i += 1;
        assert(text::views(out@) == text::views(before).push(shown));
        assert(all.take(i as int) == all.take(i - 1).push(all[i - 1]));
    }
    assert(all.take(i as int) == all);
    out
}

/// The positions below `n` of the events that concern one of these tasks.
pub open spec fn concerning(tasks: Seq<Option<String>>, ids: Seq<Seq<char>>, n: int) -> Seq<usize>
    decreases n,
{
    if n <= 0 {
        Seq::empty()
    } else {
        match tasks[n - 1] {
            Some(t) => if ids.contains(t@) {
                concerning(tasks, ids, n - 1).push((n - 1) as usize)
            } else {
                concerning(tasks, ids, n - 1)
            },
            None => concerning(tasks, ids, n - 1),
        }
    }
}

/// The positions of the events that concern a related task, of events given
/// by the task that each names. Without related tasks there are none.
pub fn events_of_related(
    candidates: &Vec<Candidate>,
    related: &Vec<RelatedTaskContext>,
    event_tasks: &Vec<Option<String>>,
) -> (r: Vec<usize>)
    requires
        are_candidates(related@, candidates@.len()),
    ensures
        r@ == concerning(
            event_tasks@,
            related_names(candidates@, related@),
            event_tasks@.len() as int,
        ),
{
    let ids: Vec<String> = related_task_ids(candidates, related);
    let mut out: Vec<usize> = Vec::new();
    let mut i: usize = 0;
    while i < event_tasks.len()
        invariant
            i <= event_tasks@.len(),
            text::views(ids@) == related_names(candidates@, related@),
            out@ == concerning(
                event_tasks@,
                related_names(candidates@, related@),
                i as int,
            ),
        decreases event_tasks@.len() - i,
    {
        match &event_tasks[i] {
            Some(t) => {
                if is_among(&ids, t.as_str()) {
                    out.push(i);
                }
            },
            None => {},
        }
        i += 1;
    }
    out
}

} // verus!
