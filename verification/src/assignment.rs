//! The text of an assignment: the task, its packet, and the context from
//! completed tasks.

use vstd::prelude::*;
use vstd::string::*;

use crate::learnings;
use crate::learnings::{
    Candidate, LearningEntry, RelatedTaskContext, Task, TaskMetricsSummary, MAX_CONTEXT_WORDS,
    MAX_FAILURE_PATTERNS, MAX_FILE_PREDICTIONS,
};
use crate::merge::git_ops::GitReply;
use crate::order;
use crate::paths;
use crate::ranking;
use crate::ranking::{rank_by, RankKey};
use crate::relevance;
use crate::relevance::extract_path_hints;
use crate::text;
use crate::text::{
    chars_of, clone_strings, copy, decimal_string, is_among, join_strings, same, sorted_distinct,
    split_lines, split_words, string_of_all, trimmed_str,
};
use crate::words;

verus! {

// ---------------------------------------------------------------------------
// Words

/// The lines kept so far, the words in them, and whether a line had to be cut.
pub open spec fn limit_state(lines: Seq<Seq<char>>, max_words: nat) -> (
    Seq<Seq<char>>,
    nat,
    bool,
)
    decreases lines.len(),
{
    if lines.len() == 0 {
        (Seq::empty(), 0, false)
    } else {
        let (kept, count, is_full) = limit_state(lines.drop_last(), max_words);
        let line = lines.last();
        let n = text::words(line).len();
        if is_full {
            (kept, count, true)
        } else if n == 0 {
            if kept.len() > 0 && kept.last().len() > 0 {
                (kept.push(Seq::empty()), count, false)
            } else {
                (kept, count, false)
            }
        } else if count + n <= max_words {
            (kept.push(line), count + n, false)
        } else if count < max_words {
            (
                kept.push(
                    text::join(text::words(line).take(max_words - count), " "@) + " ..."@,
                ),
                max_words,
                true,
            )
        } else {
            (kept, count, true)
        }
    }
}

/// The first `max_words` words of a text, with its lines; several blank lines
/// become one.
pub open spec fn limited(s: Seq<char>, max_words: nat) -> Seq<char> {
    text::trim(text::join(limit_state(text::lines(s), max_words).0, "\n"@))
}

/// Cuts a text after `max_words` words. A line that is cut ends with three
/// dots.
pub fn limit_word_count(input: &str, max_words: usize) -> (r: String)
    ensures
        r@ == limited(input@, max_words as nat),
{
    let lines: Vec<Vec<char>> = split_lines(&chars_of(input));
    let ghost all = text::lines(input@);
    let mut kept: Vec<String> = Vec::new();
    let mut count: usize = 0;
    let mut is_full: bool = false;
    let mut last_is_blank: bool = true;
    let mut i: usize = 0;
    assert(text::views(kept@) == Seq::<Seq<char>>::empty());
    while i < lines.len()
        invariant
            i <= lines@.len(),
            all.len() == lines@.len(),
            forall|k: int| 0 <= k < lines@.len() ==> (#[trigger] lines@[k])@ == all[k],
            limit_state(all.take(i as int), max_words as nat) == (
                text::views(kept@),
                count as nat,
                is_full,
            ),
            count <= max_words,
            last_is_blank == (kept@.len() == 0 || text::views(kept@).last().len() == 0),
        decreases lines@.len() - i,
    {
        assert(all.take(i + 1).drop_last() == all.take(i as int));
        let line: &Vec<char> = &lines[i];
        assert(line@ == all[i as int]);
        let words: Vec<String> = split_words(line);
        let n: usize = words.len();
        assert(n == text::views(words@).len());
        let ghost before = kept@;
        if is_full {
        } else if n == 0 {
            if !last_is_blank {
                kept.push(String::new());
                assert(text::views(kept@) =~= text::views(before).push(Seq::<char>::empty()));
                last_is_blank = true;
            }
        } else if n <= max_words - count {
            kept.push(string_of_all(line));
            count += n;
            last_is_blank = false;
            proof {
                assert(text::views(kept@) == text::views(before).push(line@));
                lemma_words_need_text(line@);
            }
        } else if count < max_words {
            let cut: Vec<String> = first_of(&words, max_words - count);
            let short: String = join_strings(&cut, " ").concat(" ...");
            let ghost shown = short@;
            kept.push(short);
            proof {
                assert(text::views(kept@) == text::views(before).push(shown));
                assert(text::views(cut@) == text::views(words@).take(max_words - count));
                reveal_strlit(" ...");
            }
            count = max_words;
            is_full = true;
            last_is_blank = false;
        } else {
            is_full = true;
        }
        i += 1;
    }
    assert(all.take(i as int) == all);
    trimmed_str(join_strings(&kept, "\n").as_str())
}

proof fn lemma_words_need_text(s: Seq<char>)
    ensures
        text::words(s).len() > 0 ==> s.len() > 0,
{
}

fn first_of(words: &Vec<String>, n: usize) -> (r: Vec<String>)
    requires
        n <= words@.len(),
    ensures
        r@ == words@.take(n as int),
{
    let mut out: Vec<String> = Vec::new();
    let mut i: usize = 0;
    while i < n
        invariant
            i <= n <= words@.len(),
            out@ == words@.take(i as int),
        decreases n - i,
    {
        out.push(words[i].clone());
        i += 1;
        assert(words@.take(i as int) == words@.take(i - 1).push(words@[i - 1]));
    }
    out
}

/// The first line of a commit's message, from what `git log` printed, where
/// it printed something.
pub fn git_commit_summary(reply: &GitReply) -> (r: Option<String>)
    ensures
        paths::opt_view(r) == (match reply {
            GitReply::Ran { success, stdout, stderr: _ } => if *success && text::trim(
                stdout@,
            ).len() > 0 {
                Some(text::trim(stdout@))
            } else {
                None
            },
            GitReply::NotRun => None,
        }),
{
    match reply {
        GitReply::Ran { success, stdout, stderr: _ } => {
            let line: String = trimmed_str(stdout.as_str());
            if *success && line.as_str().unicode_len() > 0 {
                Some(line)
            } else {
                None
            }
        },
        GitReply::NotRun => None,
    }
}

// ---------------------------------------------------------------------------
// Files

/// What a related task weighs for each of its paths.
pub open spec fn path_weight(score: usize) -> nat {
    if score == 0 {
        1
    } else {
        score as nat
    }
}

/// What `path` gets from a list of paths.
pub open spec fn weight_in(list: Seq<Seq<char>>, path: Seq<char>, weight: nat) -> nat
    decreases list.len(),
{
    if list.len() == 0 {
        0
    } else {
        weight_in(list.drop_last(), path, weight) + (if list.last() == path {
            weight
        } else {
            0
        })
    }
}

/// What `path` gets from the first `n` related tasks.
pub open spec fn weight_of(
    candidates: Seq<Candidate>,
    related: Seq<RelatedTaskContext>,
    path: Seq<char>,
    n: int,
) -> nat
    decreases n,
{
    if n <= 0 {
        0
    } else {
        weight_of(candidates, related, path, n - 1) + weight_in(
            text::views(candidates[related[n - 1].candidate as int].changed_paths@),
            path,
            path_weight(related[n - 1].score),
        )
    }
}

/// What a path gets in all: the weights of the related tasks that changed it,
/// and two where the description names it.
pub open spec fn total_weight(
    candidates: Seq<Candidate>,
    related: Seq<RelatedTaskContext>,
    hints: Seq<Seq<char>>,
    path: Seq<char>,
) -> nat {
    weight_of(candidates, related, path, related.len() as int) + (if hints.contains(path) {
        2nat
    } else {
        0nat
    })
}

/// The paths that some related tasks changed.
pub open spec fn changed_by(
    candidates: Seq<Candidate>,
    related: Seq<RelatedTaskContext>,
    n: int,
) -> Seq<Seq<char>>
    decreases n,
{
    if n <= 0 {
        Seq::empty()
    } else {
        changed_by(candidates, related, n - 1) + text::views(
            candidates[related[n - 1].candidate as int].changed_paths@,
        )
    }
}

/// What paths are ranked by.
pub open spec fn path_keys(
    candidates: Seq<Candidate>,
    related: Seq<RelatedTaskContext>,
    hints: Seq<Seq<char>>,
    sorted: Seq<Seq<char>>,
) -> Seq<RankKey> {
    Seq::new(
        sorted.len(),
        |i: int|
            RankKey {
                score: total_weight(candidates, related, hints, sorted[i]) as usize,
                at: None,
                stamp: None,
                id: 0,
            },
    )
}

/// These are the files to look at: of all paths that related tasks changed or
/// the description names, those with the most weight, in the order of a
/// dictionary where they weigh alike.
pub open spec fn is_prediction(
    candidates: Seq<Candidate>,
    related: Seq<RelatedTaskContext>,
    hints: Seq<Seq<char>>,
    files: Seq<Seq<char>>,
) -> bool {
    exists|sorted: Seq<Seq<char>>|
        {
            &&& #[trigger] text::is_increasing(sorted)
            &&& forall|p: Seq<char>| #[trigger]
                sorted.contains(p) <==> changed_by(
                    candidates,
                    related,
                    related.len() as int,
                ).contains(p) || hints.contains(p)
            &&& files == learnings::at_most(
                order::pick(
                    sorted,
                    ranking::ranking(path_keys(candidates, related, hints, sorted)),
                ),
                MAX_FILE_PREDICTIONS as nat,
            )
        }
}

/// Every weight can be counted.
pub open spec fn are_weighable(
    candidates: Seq<Candidate>,
    related: Seq<RelatedTaskContext>,
) -> bool {
    forall|path: Seq<char>|
        #[trigger] weight_of(candidates, related, path, related.len() as int) + 2 <= usize::MAX
}

proof fn lemma_weight_grows(
    candidates: Seq<Candidate>,
    related: Seq<RelatedTaskContext>,
    path: Seq<char>,
    i: int,
    n: int,
)
    requires
        i <= n,
    ensures
        weight_of(candidates, related, path, i) <= weight_of(candidates, related, path, n),
    decreases n - i,
{
    if i < n {
        lemma_weight_grows(candidates, related, path, i, n - 1);
    }
}

proof fn lemma_weight_in_grows(list: Seq<Seq<char>>, path: Seq<char>, weight: nat, i: int)
    requires
        0 <= i <= list.len(),
    ensures
        weight_in(list.take(i), path, weight) <= weight_in(list, path, weight),
    decreases list.len() - i,
{
    if i < list.len() {
        lemma_weight_in_grows(list, path, weight, i + 1);
        assert(list.take(i + 1).drop_last() == list.take(i));
    } else {
        assert(list.take(i) == list);
    }
}

fn weigh(
    candidates: &Vec<Candidate>,
    related: &Vec<RelatedTaskContext>,
    path: &str,
) -> (r: usize)
    requires
        learnings::are_candidates(related@, candidates@.len()),
        are_weighable(candidates@, related@),
    ensures
        r == weight_of(candidates@, related@, path@, related@.len() as int),
{
    let mut sum: usize = 0;
    let mut n: usize = 0;
    while n < related.len()
        invariant
            n <= related@.len(),
            learnings::are_candidates(related@, candidates@.len()),
            are_weighable(candidates@, related@),
            sum == weight_of(candidates@, related@, path@, n as int),
        decreases related@.len() - n,
    {
        assert(related@[n as int].candidate < candidates@.len());
        let list: &Vec<String> = &candidates[related[n].candidate].changed_paths;
        let ghost names = text::views(list@);
        let weight: usize = if related[n].score == 0 {
            1
        } else {
            related[n].score
        };
        let ghost start = sum;
        let mut i: usize = 0;
        while i < list.len()
            invariant
                i <= list@.len(),
                n < related@.len(),
                names == text::views(list@),
                list@ == candidates@[related@[n as int].candidate as int].changed_paths@,
                weight == path_weight(related@[n as int].score),
                are_weighable(candidates@, related@),
                start == weight_of(candidates@, related@, path@, n as int),
                sum == start + weight_in(names.take(i as int), path@, weight as nat),
            decreases list@.len() - i,
        {
            proof {
                assert(names.take(i + 1).drop_last() == names.take(i as int));
                lemma_weight_in_grows(names, path@, weight as nat, i + 1);
                lemma_weight_grows(
                    candidates@,
                    related@,
                    path@,
                    n + 1,
                    related@.len() as int,
                );
                assert(weight_of(candidates@, related@, path@, related@.len() as int) + 2
                    <= usize::MAX);
            }
            if same(list[i].as_str(), path) {
                sum += weight;
            }
            i += 1;
        }
        assert(names.take(i as int) == names);
        n += 1;
    }
    sum
}

/// Predicts which files a task will touch, from what related tasks changed
/// and from what its description names.
pub fn predict_files(
    candidates: &Vec<Candidate>,
    related: &Vec<RelatedTaskContext>,
    task: &Task,
) -> (r: Vec<String>)
    requires
        learnings::are_candidates(related@, candidates@.len()),
        are_weighable(candidates@, related@),
    ensures
        is_prediction(
            candidates@,
            related@,
            relevance::path_hints(task.description@),
            text::views(r@),
        ),
{
    let hints: Vec<String> = extract_path_hints(task.description.as_str());
    let ghost hv = relevance::path_hints(task.description@);
    let mut every: Vec<String> = Vec::new();
    let mut n: usize = 0;
    assert(text::views(every@) == Seq::<Seq<char>>::empty());
    while n < related.len()
        invariant
            n <= related@.len(),
            learnings::are_candidates(related@, candidates@.len()),
            text::views(every@) == changed_by(candidates@, related@, n as int),
        decreases related@.len() - n,
    {
        assert(related@[n as int].candidate < candidates@.len());
        let list: &Vec<String> = &candidates[related[n].candidate].changed_paths;
        let mut more: Vec<String> = clone_strings(list);
        let ghost before = every@;
        every.append(&mut more);
        assert(text::views(every@) =~= text::views(before) + text::views(list@));
        n += 1;
    }
    let mut named: Vec<String> = clone_strings(&hints);
    let ghost changed = text::views(every@);
    let ghost e0 = every@;
    every.append(&mut named);
    assert(text::views(every@) =~= changed + hv);
    let sorted: Vec<String> = sorted_distinct(&every);
    let ghost sv = text::views(sorted@);
    assert forall|p: Seq<char>| #[trigger] sv.contains(p) <==> changed.contains(p) || hv.contains(
        p,
    ) by {
        lemma_contains_sum(changed, hv, p);
    }
    let mut keys: Vec<RankKey> = Vec::new();
    let mut i: usize = 0;
    let ghost all_keys = path_keys(candidates@, related@, hv, sv);
    while i < sorted.len()
        invariant
            i <= sorted@.len(),
            sv == text::views(sorted@),
            text::views(hints@) == hv,
            all_keys == path_keys(candidates@, related@, hv, sv),
            learnings::are_candidates(related@, candidates@.len()),
            are_weighable(candidates@, related@),
            keys@ == all_keys.take(i as int),
        decreases sorted@.len() - i,
    {
        assert(sv[i as int] == sorted@[i as int]@);
        let base: usize = weigh(candidates, related, sorted[i].as_str());
        assert(weight_of(candidates@, related@, sv[i as int], related@.len() as int) + 2
            <= usize::MAX);
        let score: usize = if is_among(&hints, sorted[i].as_str()) {
            base + 2
        } else {
            base
        };
        keys.push(RankKey { score, at: None, stamp: None, id: 0 });
        i += 1;
        assert(all_keys.take(i as int) == all_keys.take(i - 1).push(all_keys[i - 1]));
    }
    assert(all_keys.take(i as int) == all_keys);
    let count: usize = keys.len();
    let order: Vec<usize> = rank_by(&keys);
    proof {
        ranking::law_ranking_is_in_order(keys@);
    }
    let take: usize = if count <= MAX_FILE_PREDICTIONS {
        count
    } else {
        MAX_FILE_PREDICTIONS
    };
    let ghost ranked = order::pick(sv, order@);
    let mut out: Vec<String> = Vec::new();
    let mut k: usize = 0;
    while k < take
        invariant
            k <= take <= count,
            count == sorted@.len(),
            sv == text::views(sorted@),
            order@.len() == count,
            ranked == order::pick(sv, order@),
            forall|j: int| 0 <= j < count ==> (#[trigger] order@[j]) < count,
            text::views(out@) == ranked.take(k as int),
        decreases take - k,
    {
        let ghost before = out@;
        assert(order@[k as int] < count);
        out.push(copy(sorted[order[k]].as_str()));
        assert(text::views(out@) == text::views(before).push(ranked[k as int]));
        k += 1;
        assert(ranked.take(k as int) == ranked.take(k - 1).push(ranked[k - 1]));
    }
    assert(ranked.take(count as int) == ranked);
    out
}

proof fn lemma_contains_sum(a: Seq<Seq<char>>, b: Seq<Seq<char>>, x: Seq<char>)
    ensures
        (a + b).contains(x) <==> a.contains(x) || b.contains(x),
{
    let c = a + b;
    if a.contains(x) {
        let k = choose|k: int| 0 <= k < a.len() && a[k] == x;
        assert(c[k] == x);
    }
    if b.contains(x) {
        let k = choose|k: int| 0 <= k < b.len() && b[k] == x;
        assert(c[a.len() + k] == x);
    }
    if c.contains(x) {
        let k = choose|k: int| 0 <= k < c.len() && c[k] == x;
        if k < a.len() {
            assert(a[k] == x);
        } else {
            assert(b[k - a.len()] == x);
        }
    }
}

// ---------------------------------------------------------------------------
// Sections

/// A note on a count, where there is something to note.
pub open spec fn count_note(label: Seq<char>, n: i64) -> Seq<Seq<char>> {
    if n > 0 {
        seq![label + text::decimal(n as nat)]
    } else {
        Seq::empty()
    }
}

/// The notes on a related task.
pub open spec fn notes_on(git_summary: Option<String>, m: TaskMetricsSummary) -> Seq<Seq<char>> {
    (match git_summary {
        Some(s) => seq!["git: "@ + s@],
        None => Seq::empty(),
    }) + count_note("retries="@, m.retries) + count_note("escalations="@, m.escalations)
        + count_note("context_restarts="@, m.context_restart_count)
}

fn add_count(notes: &mut Vec<String>, label: &str, n: i64)
    ensures
        text::views(final(notes)@) == text::views(old(notes)@) + count_note(label@, n),
{
    let ghost before = notes@;
    if n > 0 {
        let note: String = copy(label).concat(decimal_string(n as u64).as_str());
        let ghost shown = note@;
        notes.push(note);
        assert(text::views(notes@) =~= text::views(before) + seq![shown]);
    } else {
        assert(text::views(notes@) =~= text::views(before) + Seq::<Seq<char>>::empty());
    }
}

/// The line on a related task.
pub open spec fn related_line(c: Candidate, m: TaskMetricsSummary) -> Seq<char> {
    let notes = notes_on(c.git_summary, m);
    "- Task #"@ + text::decimal(c.task.id as nat) + ": "@ + c.task.title@ + (if notes.len() == 0 {
        Seq::empty()
    } else {
        " ("@ + text::join(notes, ", "@) + ")"@
    }) + "\n"@
}

fn line_on_related(c: &Candidate, m: &TaskMetricsSummary) -> (r: String)
    ensures
        r@ == related_line(*c, *m),
{
    let mut notes: Vec<String> = Vec::new();
    match &c.git_summary {
        Some(s) => {
            let note: String = copy("git: ").concat(s.as_str());
            let ghost shown = note@;
            notes.push(note);
            assert(text::views(notes@) =~= seq![shown]);
        },
        None => {
            assert(text::views(notes@) =~= Seq::<Seq<char>>::empty());
        },
    }
    add_count(&mut notes, "retries=", m.retries);
    add_count(&mut notes, "escalations=", m.escalations);
    add_count(&mut notes, "context_restarts=", m.context_restart_count);
    assert(text::views(notes@) == notes_on(c.git_summary, *m));
    assert(text::views(notes@).len() == notes@.len());
    let suffix: String = if notes.len() == 0 {
        String::new()
    } else {
        copy(" (").concat(join_strings(&notes, ", ").as_str()).concat(")")
    };
    copy("- Task #").concat(decimal_string(c.task.id as u64).as_str()).concat(": ").concat(
        c.task.title.as_str(),
    ).concat(suffix.as_str()).concat("\n")
}

/// The lines on the first `n` related tasks.
pub open spec fn related_lines(
    candidates: Seq<Candidate>,
    related: Seq<RelatedTaskContext>,
    n: int,
) -> Seq<char>
    decreases n,
{
    if n <= 0 {
        Seq::empty()
    } else {
        related_lines(candidates, related, n - 1) + related_line(
            candidates[related[n - 1].candidate as int],
            related[n - 1].metrics,
        )
    }
}

/// A dash, a text and a line break, for each of the texts.
pub open spec fn dashed(items: Seq<Seq<char>>) -> Seq<char>
    decreases items.len(),
{
    if items.len() == 0 {
        Seq::empty()
    } else {
        dashed(items.drop_last()) + "- "@ + items.last() + "\n"@
    }
}

fn dashed_lines(head: &str, items: &Vec<String>) -> (r: String)
    ensures
        r@ == head@ + dashed(text::views(items@)),
{
    let ghost all = text::views(items@);
    let mut out: String = copy(head);
    let mut i: usize = 0;
    assert(out@ == head@ + dashed(all.take(0)));
    while i < items.len()
        invariant
            i <= items@.len(),
            all == text::views(items@),
            out@ == head@ + dashed(all.take(i as int)),
        decreases items@.len() - i,
    {
        assert(all.take(i + 1).drop_last() == all.take(i as int));
        out = out.concat("- ").concat(items[i].as_str()).concat("\n");
        i += 1;
        assert(out@ == head@ + dashed(all.take(i as int)));
    }
    assert(all.take(i as int) == all);
    out
}

/// The line on a learning.
pub open spec fn learning_line(e: LearningEntry) -> Seq<char> {
    "- Task #"@ + text::decimal(e.task_id as nat) + " ["@ + (if e.tags@.len() == 0 {
        "untagged"@
    } else {
        text::join(text::views(e.tags@), ", "@)
    }) + "] "@ + e.summary@ + "\n"@
}

fn line_on_learning(e: &LearningEntry) -> (r: String)
    ensures
        r@ == learning_line(*e),
{
    let tags: String = if e.tags.len() == 0 {
        copy("untagged")
    } else {
        join_strings(&e.tags, ", ")
    };
    copy("- Task #").concat(decimal_string(e.task_id as u64).as_str()).concat(" [").concat(
        tags.as_str(),
    ).concat("] ").concat(e.summary.as_str()).concat("\n")
}

/// The lines on the first `n` of the chosen learnings.
pub open spec fn learning_lines(
    entries: Seq<LearningEntry>,
    chosen: Seq<usize>,
    n: int,
) -> Seq<char>
    decreases n,
{
    if n <= 0 {
        Seq::empty()
    } else {
        learning_lines(entries, chosen, n - 1) + learning_line(entries[chosen[n - 1] as int])
    }
}

/// A section, where there is something to say.
pub open spec fn section(is_there: bool, s: Seq<char>) -> Seq<Seq<char>> {
    if is_there {
        seq![s]
    } else {
        Seq::empty()
    }
}

/// The sections of a dispatch context.
pub open spec fn context_sections(
    candidates: Seq<Candidate>,
    related: Seq<RelatedTaskContext>,
    patterns: Seq<Seq<char>>,
    files: Seq<Seq<char>>,
    entries: Seq<LearningEntry>,
    chosen: Seq<usize>,
) -> Seq<Seq<char>> {
    section(
        related.len() > 0,
        "Recent related completions:\n"@ + related_lines(
            candidates,
            related,
            related.len() as int,
        ),
    ) + section(
        patterns.len() > 0,
        "Failure history from similar tasks:\n"@ + dashed(patterns),
    ) + section(files.len() > 0, "Likely files to inspect:\n"@ + dashed(files)) + section(
        chosen.len() > 0,
        "Relevant prior learnings:\n"@ + learning_lines(entries, chosen, chosen.len() as int),
    )
}

fn add_section(sections: &mut Vec<String>, is_there: bool, s: String)
    ensures
        text::views(final(sections)@) == text::views(old(sections)@) + section(is_there, s@),
{
    let ghost before = sections@;
    let ghost shown = s@;
    if is_there {
        sections.push(s);
        assert(text::views(sections@) =~= text::views(before) + seq![shown]);
    } else {
        assert(text::views(sections@) =~= text::views(before) + Seq::<Seq<char>>::empty());
    }
}

/// The failure patterns that matter: none without related tasks, and not more
/// than the limit.
pub open spec fn matching_patterns(related_count: nat, patterns: Seq<Seq<char>>) -> Seq<Seq<char>> {
    if related_count == 0 {
        Seq::empty()
    } else {
        learnings::at_most(patterns, MAX_FAILURE_PATTERNS as nat)
    }
}

/// The failure patterns that matter, from those found in the events of the
/// related tasks.
pub fn relevant_failure_patterns(related: &Vec<RelatedTaskContext>, patterns: &Vec<String>) -> (r:
    Vec<String>)
    ensures
        text::views(r@) == matching_patterns(related@.len(), text::views(patterns@)),
{
    let n: usize = if related.len() == 0 {
        0
    } else if patterns.len() <= MAX_FAILURE_PATTERNS {
        patterns.len()
    } else {
        MAX_FAILURE_PATTERNS
    };
    let out: Vec<String> = first_of(patterns, n);
    assert(text::views(out@) =~= text::views(patterns@).take(n as int));
    assert(text::views(patterns@).take(patterns@.len() as int) =~= text::views(patterns@));
    out
}

/// This is the context of a task.
pub open spec fn is_context(
    task: Task,
    candidates: Seq<Candidate>,
    related: Seq<RelatedTaskContext>,
    patterns: Seq<Seq<char>>,
    entries: Seq<LearningEntry>,
    chosen: Seq<usize>,
    context: Seq<char>,
) -> bool {
    exists|files: Seq<Seq<char>>|
        {
            &&& #[trigger] is_prediction(
                candidates,
                related,
                relevance::path_hints(task.description@),
                files,
            )
            &&& context == limited(
                text::join(
                    context_sections(
                        candidates,
                        related,
                        matching_patterns(related.len(), patterns),
                        files,
                        entries,
                        chosen,
                    ),
                    "\n"@,
                ),
                MAX_CONTEXT_WORDS as nat,
            )
        }
}

/// Builds the context of a task from the related tasks, the failure patterns
/// in their events, the files that the task will likely touch, and the
/// learnings that were chosen for it.
pub fn build_dispatch_context(
    task: &Task,
    candidates: &Vec<Candidate>,
    related: &Vec<RelatedTaskContext>,
    patterns: &Vec<String>,
    entries: &Vec<LearningEntry>,
    chosen: &Vec<usize>,
) -> (r: String)
    requires
        learnings::are_candidates(related@, candidates@.len()),
        are_weighable(candidates@, related@),
        forall|k: int| 0 <= k < chosen@.len() ==> (#[trigger] chosen@[k]) < entries@.len(),
    ensures
        is_context(
            *task,
            candidates@,
            related@,
            text::views(patterns@),
            entries@,
            chosen@,
            r@,
        ),
{
    let files: Vec<String> = predict_files(candidates, related, task);
    let failures: Vec<String> = relevant_failure_patterns(related, patterns);
    let mut sections: Vec<String> = Vec::new();
    assert(text::views(sections@) == Seq::<Seq<char>>::empty());

    let mut lines: String = copy("Recent related completions:\n");
    let ghost head = lines@;
    let mut n: usize = 0;
    assert(head + related_lines(candidates@, related@, 0) == head);
    while n < related.len()
        invariant
            n <= related@.len(),
            learnings::are_candidates(related@, candidates@.len()),
            lines@ == head + related_lines(candidates@, related@, n as int),
        decreases related@.len() - n,
    {
        assert(related@[n as int].candidate < candidates@.len());
        let line: String = line_on_related(
            &candidates[related[n].candidate],
            &related[n].metrics,
        );
        let ghost before = lines@;
        lines = lines.concat(line.as_str());
        n += 1;
        assert(lines@ == head + (related_lines(candidates@, related@, n - 1) + line@));
    }
    add_section(&mut sections, related.len() > 0, lines);
    add_section(
        &mut sections,
        failures.len() > 0,
        dashed_lines("Failure history from similar tasks:\n", &failures),
    );
    add_section(
        &mut sections,
        files.len() > 0,
        dashed_lines("Likely files to inspect:\n", &files),
    );

    let mut learned: String = copy("Relevant prior learnings:\n");
    let ghost top = learned@;
    let mut k: usize = 0;
    assert(top + learning_lines(entries@, chosen@, 0) == top);
    while k < chosen.len()
        invariant
            k <= chosen@.len(),
            forall|j: int| 0 <= j < chosen@.len() ==> (#[trigger] chosen@[j]) < entries@.len(),
            learned@ == top + learning_lines(entries@, chosen@, k as int),
        decreases chosen@.len() - k,
    {
        assert(chosen@[k as int] < entries@.len());
        let line: String = line_on_learning(&entries[chosen[k]]);
        learned = learned.concat(line.as_str());
        k += 1;
        assert(learned@ == top + (learning_lines(entries@, chosen@, k - 1) + line@));
    }
    add_section(&mut sections, chosen.len() > 0, learned);
    let joined: String = join_strings(&sections, "\n");
    proof {
        let fv = text::views(files@);
        let pv = text::views(failures@);
        assert(fv.len() == files@.len());
        assert(pv.len() == failures@.len());
        assert(text::views(sections@) =~= context_sections(
            candidates@,
            related@,
            pv,
            fv,
            entries@,
            chosen@,
        ));
    }
    limit_word_count(joined.as_str(), MAX_CONTEXT_WORDS)
}

// ---------------------------------------------------------------------------
// Assignment

/// The paths of a list, each on its line.
pub open spec fn listed_paths(files: Seq<Seq<char>>) -> Seq<char>
    decreases files.len(),
{
    if files.len() == 0 {
        Seq::empty()
    } else {
        listed_paths(files.drop_last()) + "  - "@ + files.last() + "\n"@
    }
}

/// The packet of an assignment.
pub open spec fn packet(
    id: u32,
    files: Seq<Seq<char>>,
    token: Seq<char>,
    recipient: Seq<char>,
) -> Seq<char> {
    let required = files.len() > 0;
    "Assignment Packet:\n```yaml\ntask_id: "@ + text::decimal(id as nat) + "\n"@ + (if required {
        "allowed_files:\n"@ + listed_paths(files)
    } else {
        "allowed_files: []\n"@
    }) + "scope_ack_required: "@ + (if required {
        "true"@
    } else {
        "false"@
    }) + "\nscope_ack_token: \""@ + token + "\"\nscope_ack_command: \"batty send "@ + recipient
        + " \\\""@ + token + "\\\"\"\n```\n"@ + (if required {
        "Before your first file write, run `batty send "@ + recipient + " \""@ + token + "\"`.\n"@
    } else {
        Seq::empty()
    })
}

/// Writes the packet of an assignment: which files may be written, and how to
/// acknowledge that.
pub fn assignment_packet(
    task: &Task,
    allowed_files: &Vec<String>,
    ack_token: &str,
    ack_recipient: &str,
) -> (r: String)
    ensures
        r@ == packet(task.id, text::views(allowed_files@), ack_token@, ack_recipient@),
{
    let ghost all = text::views(allowed_files@);
    assert(all.len() == allowed_files@.len());
    let required: bool = allowed_files.len() > 0;
    let files: String = if required {
        let mut list: String = copy("allowed_files:\n");
        let ghost head = list@;
        let mut i: usize = 0;
        assert(head + listed_paths(all.take(0)) == head);
        while i < allowed_files.len()
            invariant
                i <= allowed_files@.len(),
                all == text::views(allowed_files@),
                list@ == head + listed_paths(all.take(i as int)),
            decreases allowed_files@.len() - i,
        {
            assert(all.take(i + 1).drop_last() == all.take(i as int));
            list = list.concat("  - ").concat(allowed_files[i].as_str()).concat("\n");
            i += 1;
            assert(list@ == head + listed_paths(all.take(i as int)));
        }
        assert(all.take(i as int) == all);
        list
    } else {
        copy("allowed_files: []\n")
    };
    let flag: String = if required {
        copy("true")
    } else {
        copy("false")
    };
    let last: String = if required {
        copy("Before your first file write, run `batty send ").concat(ack_recipient).concat(
            " \"",
        ).concat(ack_token).concat("\"`.\n")
    } else {
        String::new()
    };
    copy("Assignment Packet:\n```yaml\ntask_id: ").concat(
        decimal_string(task.id as u64).as_str(),
    ).concat("\n").concat(files.as_str()).concat("scope_ack_required: ").concat(
        flag.as_str(),
    ).concat("\nscope_ack_token: \"").concat(ack_token).concat(
        "\"\nscope_ack_command: \"batty send ",
    ).concat(ack_recipient).concat(" \\\"").concat(ack_token).concat("\\\"\"\n```\n").concat(
        last.as_str(),
    )
}

/// The message of an assignment.
pub open spec fn assignment_message(
    task: Task,
    files: Seq<Seq<char>>,
    token: Seq<char>,
    recipient: Seq<char>,
    context: Seq<char>,
) -> Seq<char> {
    "Task #"@ + text::decimal(task.id as nat) + ": "@ + task.title@ + "\n\n"@ + task.description@
        + "\n\n"@ + packet(task.id, files, token, recipient) + (if context.len() == 0 {
        Seq::empty()
    } else {
        "\n\nDispatch context:\n"@ + context
    })
}

/// Writes the message of an assignment: the task, its packet and its context.
pub fn augment_assignment_message(
    task: &Task,
    allowed_files: &Vec<String>,
    ack_token: &str,
    ack_recipient: &str,
    context: &str,
) -> (r: String)
    ensures
        r@ == assignment_message(
            *task,
            text::views(allowed_files@),
            ack_token@,
            ack_recipient@,
            context@,
        ),
{
    let tail: String = if context.unicode_len() == 0 {
        String::new()
    } else {
        copy("\n\nDispatch context:\n").concat(context)
    };
    copy("Task #").concat(decimal_string(task.id as u64).as_str()).concat(": ").concat(
        task.title.as_str(),
    ).concat("\n\n").concat(task.description.as_str()).concat("\n\n").concat(
        assignment_packet(task, allowed_files, ack_token, ack_recipient).as_str(),
    ).concat(tail.as_str())
}

// ---------------------------------------------------------------------------
// Laws

proof fn lemma_limit(lines: Seq<Seq<char>>, max_words: nat)
    ensures
        ({
            let (kept, count, is_full) = limit_state(lines, max_words);
            &&& count <= max_words
            &&& words::words_of_lines(kept).len() <= count + (if is_full {
                1nat
            } else {
                0nat
            })
            &&& words::words_of_lines(lines).len() <= max_words ==> !is_full && count
                == words::words_of_lines(lines).len() && words::words_of_lines(kept)
                == words::words_of_lines(lines)
            &&& words::words_of_lines(lines).len() > max_words ==> is_full && count == max_words
            &&& count <= words::words_of_lines(kept).len()
            &&& words::words_of_lines(kept).take(count as int) == words::words_of_lines(lines).take(
                count as int,
            )
        }),
    decreases lines.len(),
{
    if lines.len() == 0 {
        assert(words::words_of_lines(limit_state(lines, max_words).0).take(0)
            =~= words::words_of_lines(lines).take(0));
    } else {
        let front = lines.drop_last();
        lemma_limit(front, max_words);
        let (k0, c0, f0) = limit_state(front, max_words);
        let (kept, count, is_full) = limit_state(lines, max_words);
        let line = lines.last();
        let ws = text::words(line);
        assert(words::words_of_lines(lines) == words::words_of_lines(front) + ws);
        if kept.len() > k0.len() {
            assert(kept.drop_last() == k0);
            if ws.len() == 0 {
                assert(words::words_of_lines(kept) == words::words_of_lines(k0) + text::words(
                    Seq::empty(),
                ));
                assert(words::words_of_lines(kept) == words::words_of_lines(k0));
            } else if c0 + ws.len() <= max_words {
                assert(words::words_of_lines(kept) == words::words_of_lines(k0) + ws);
            } else {
                let cut = ws.take(max_words - c0);
                words::law_words_are_words(line);
                assert forall|k: int| 0 <= k < cut.len() implies words::is_word(
                    #[trigger] cut[k],
                ) by {
                    assert(cut[k] == ws[k]);
                }
                words::law_joined_words_are_words(cut);
                reveal_strlit(" ...");
                let a = text::join(cut, " "@);
                let dots = seq!['.', '.', '.'];
                assert(a + " ..."@ == a.push(' ') + dots);
                words::law_words_of_parts(a, ' ', dots);
                words::law_joined_words_are_words(seq![dots]);
                assert(text::join(seq![dots], " "@) == dots);
                assert(text::words(kept.last()).len() == cut.len() + 1);
                assert(text::words(kept.last()).take(cut.len() as int) =~= cut);
                assert(words::words_of_lines(kept) == words::words_of_lines(k0) + text::words(
                    kept.last(),
                ));
                assert(words::words_of_lines(kept).take(count as int) =~= words::words_of_lines(
                    k0,
                ) + cut);
                assert(words::words_of_lines(lines).take(count as int) =~= words::words_of_lines(
                    front,
                ) + cut);
            }
        }
        if ws.len() == 0 {
            assert(words::words_of_lines(lines) == words::words_of_lines(front));
        }
        if f0 || kept.len() == k0.len() {
            assert(words::words_of_lines(lines).take(count as int) =~= words::words_of_lines(
                front,
            ).take(count as int));
        }
    }
}

proof fn lemma_lines_words(s: Seq<char>)
    ensures
        words::words_of_lines(text::line_state(s).0) + text::words(text::line_state(s).1)
            == text::words(s),
    decreases s.len(),
{
    let (done, cur) = text::line_state(s);
    if s.len() == 0 {
        assert(words::words_of_lines(done) + text::words(cur) == text::words(s));
    } else {
        let front = s.drop_last();
        lemma_lines_words(front);
        let (d0, c0) = text::line_state(front);
        assert(front.push(s.last()) == s);
        if s.last() == '\n' {
            assert(done.drop_last() == d0);
            lemma_strip_cr(c0);
            words::law_words_of_parts(front, '\n', Seq::empty());
            assert(front.push('\n') + Seq::<char>::empty() == s);
            assert(text::words(Seq::<char>::empty()) == Seq::<Seq<char>>::empty());
            assert(words::words_of_lines(done) + text::words(cur) == text::words(s));
        } else {
            lemma_words_push(d0, c0, front, s.last());
        }
    }
}

proof fn lemma_strip_cr(s: Seq<char>)
    ensures
        text::words(text::strip_cr(s)) == text::words(s),
{
    if s.len() > 0 && s.last() == '\r' {
        let front = s.drop_last();
        words::law_words_of_parts(front, '\r', Seq::empty());
        assert(front.push('\r') + Seq::<char>::empty() == s);
        assert(text::words(front) + text::words(Seq::<char>::empty()) == text::words(front));
    }
}

/// The word in progress of a text is that of its last line.
proof fn lemma_cur_of_line(s: Seq<char>)
    ensures
        text::word_state(s).1 == text::word_state(text::line_state(s).1).1,
    decreases s.len(),
{
    if s.len() > 0 {
        lemma_cur_of_line(s.drop_last());
        let c0 = text::line_state(s.drop_last()).1;
        if s.last() != '\n' {
            assert(c0.push(s.last()).drop_last() == c0);
        }
    }
}

proof fn lemma_words_push(d0: Seq<Seq<char>>, c0: Seq<char>, front: Seq<char>, c: char)
    requires
        text::line_state(front) == (d0, c0),
        words::words_of_lines(d0) + text::words(c0) == text::words(front),
    ensures
        words::words_of_lines(d0) + text::words(c0.push(c)) == text::words(front.push(c)),
{
    lemma_cur_of_line(front);
    let (df, uf) = text::word_state(front);
    let (dc, uc) = text::word_state(c0);
    let w = words::words_of_lines(d0);
    assert(front.push(c).drop_last() == front);
    assert(c0.push(c).drop_last() == c0);
    assert(uf == uc);
    if uf.len() == 0 {
        assert(w + dc == df);
    } else {
        assert(w + dc.push(uc) == df.push(uf));
        assert((w + dc).push(uc) == w + dc.push(uc));
        assert((w + dc).push(uc).drop_last() == w + dc);
        assert(df.push(uf).drop_last() == df);
    }
    assert(w + dc == df);
    let u = uc.push(c);
    assert(w + dc.push(u) == (w + dc).push(u));
    assert(w + dc.push(uc) == (w + dc).push(uc));
}

/// A limited text has at most that many words, not counting the three dots of
/// a cut; a text that keeps the limit keeps all its words, and any other keeps
/// its first words up to the limit.
pub proof fn law_context_keeps_its_limit(s: Seq<char>, max_words: nat)
    ensures
        text::words(s).len() > max_words ==> text::words(limited(s, max_words)).len() >= max_words
            && text::words(limited(s, max_words)).subrange(0, max_words as int)
            == text::words(s).subrange(0, max_words as int),
        text::words(limited(s, max_words)).len() <= max_words + 1,
        text::words(s).len() <= max_words ==> text::words(limited(s, max_words)) == text::words(s),
{
    let lines = text::lines(s);
    let kept = limit_state(lines, max_words).0;
    lemma_limit(lines, max_words);
    words::law_words_of_joined_lines(kept);
    words::law_trimming_keeps_words(text::join(kept, "\n"@));
    lemma_lines_words(s);
    let (done, cur) = text::line_state(s);
    if cur.len() == 0 {
        assert(text::words(cur) == Seq::<Seq<char>>::empty());
        assert(words::words_of_lines(done) + text::words(cur) == words::words_of_lines(done));
    } else {
        assert(done.push(cur).drop_last() == done);
    }
    assert(words::words_of_lines(lines) == text::words(s));
}

} // verus!
