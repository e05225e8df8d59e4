//! What makes tasks and learnings related, and what is made of it.

use vstd::prelude::*;

use crate::assignment;
use crate::digits;
use crate::learnings;
use crate::learnings::{
    Candidate, LearningEntry, RelatedTaskContext, Task, TaskMetricsRow, TaskMetricsSummary,
    MAX_FILE_PREDICTIONS,
};
use crate::merge::git_laws;
use crate::merge::git_ops;
use crate::order;
use crate::ranking;
use crate::relevance;
use crate::relevance_laws;
use crate::text;
use crate::text_laws;

verus! {

// ---------------------------------------------------------------------------
// Counting what is shared

/// One more text in the second list is one more in common exactly where the
/// first list has it and the second had it not.
pub proof fn law_one_more_in_common(a: Seq<Seq<char>>, b: Seq<Seq<char>>, x: Seq<char>)
    ensures
        relevance::common(a, b.push(x)) == relevance::common(a, b) + (if a.contains(x)
            && !b.contains(x) {
            1nat
        } else {
            0
        }),
        relevance::common(a, Seq::empty()) == 0,
        relevance::common(a, b) == relevance::common(b, a),
{
    broadcast use vstd::seq_lib::group_seq_properties;

    let both = a.to_set().intersect(b.to_set());
    let more = a.to_set().intersect(b.push(x).to_set());
    vstd::seq_lib::seq_to_set_is_finite(a);
    assert(b.push(x).to_set() =~= b.to_set().insert(x));
    if a.contains(x) && !b.contains(x) {
        assert(more =~= both.insert(x));
        assert(!both.contains(x));
    } else {
        assert(more =~= both);
    }
    assert(a.to_set().intersect(Seq::<Seq<char>>::empty().to_set()) =~= Set::empty());
    assert(both =~= b.to_set().intersect(a.to_set()));
}

proof fn lemma_in_common(a: Seq<Seq<char>>, b: Seq<Seq<char>>, x: Seq<char>)
    requires
        a.contains(x),
        b.contains(x),
    ensures
        relevance::common(a, b) >= 1,
{
    let both = a.to_set().intersect(b.to_set());
    vstd::seq_lib::seq_to_set_is_finite(a);
    assert(both.contains(x));
    if both.len() == 0 {
        assert(both =~= Set::empty());
    }
}

proof fn lemma_directory_listed(ps: Seq<Seq<char>>, i: int)
    requires
        0 <= i < ps.len(),
        relevance::directory(ps[i]) is Some,
    ensures
        relevance::directories(ps).contains(relevance::directory(ps[i])->Some_0),
    decreases ps.len(),
{
    let d = relevance::directory(ps[i])->Some_0;
    let all = relevance::directories(ps);
    if i == ps.len() - 1 {
        assert(all[all.len() - 1] == d);
    } else {
        lemma_directory_listed(ps.drop_last(), i);
        let front = relevance::directories(ps.drop_last());
        let k = choose|k: int| 0 <= k < front.len() && front[k] == d;
        assert(all[k] == d);
    }
}

// ---------------------------------------------------------------------------
// Related tasks

/// A path that the description names and a path that the other task changed
/// lie in one directory.
pub open spec fn share_a_directory(task: Task, candidate: Candidate) -> bool {
    exists|p: Seq<char>, i: int|
        {
            &&& relevance::path_hints(task.description@).contains(p)
            &&& 0 <= i < candidate.changed_paths@.len()
            &&& #[trigger] relevance::directory(p) is Some
            &&& relevance::directory(p) == relevance::directory(
                (#[trigger] candidate.changed_paths@[i])@,
            )
        }
}

/// The tasks have a tag in common, whatever its case.
pub open spec fn share_a_tag(task: Task, candidate: Candidate) -> bool {
    exists|i: int, j: int|
        0 <= i < task.tags@.len() && 0 <= j < candidate.task.tags@.len() && text::lower(
            (#[trigger] task.tags@[i])@,
        ) == text::lower((#[trigger] candidate.task.tags@[j])@)
}

/// A keyword occurs in the title or description of both tasks.
pub open spec fn share_a_keyword(task: Task, candidate: Candidate) -> bool {
    exists|w: Seq<char>| #[trigger]
        relevance::keywords(task.title@ + "\n"@ + task.description@).contains(w)
            && relevance::keywords(
            candidate.task.title@ + "\n"@ + candidate.task.description@,
        ).contains(w)
}

/// A shared directory is worth three at least, a shared tag four and a shared
/// keyword one, and what shares none of them is not related.
pub proof fn law_what_is_shared_counts(task: Task, candidate: Candidate)
    ensures
        ({
            let score = learnings::resemblance(task, candidate);
            let d = share_a_directory(task, candidate);
            let t = share_a_tag(task, candidate);
            let k = share_a_keyword(task, candidate);
            &&& d ==> score >= 3
            &&& t ==> score >= 4
            &&& k ==> score >= 1
            &&& d && t ==> score >= 7
            &&& d && k ==> score >= 4
            &&& t && k ==> score >= 5
            &&& d && t && k ==> score >= 8
            &&& !d && !t && !k ==> score == 0
        }),
{
    let ta = relevance::lowered(text::views(task.tags@));
    let tb = relevance::lowered(text::views(candidate.task.tags@));
    let hints = relevance::path_hints(task.description@);
    let changed = text::views(candidate.changed_paths@);
    let da = relevance::directories(hints);
    let db = relevance::directories(changed);
    let ka = relevance::keywords(learnings::task_text(task));
    let kb = relevance::keywords(learnings::task_text(candidate.task));
    if share_a_directory(task, candidate) {
        let (p, i) = choose|p: Seq<char>, i: int|
            {
                &&& hints.contains(p)
                &&& 0 <= i < candidate.changed_paths@.len()
                &&& #[trigger] relevance::directory(p) is Some
                &&& relevance::directory(p) == relevance::directory(
                    (#[trigger] candidate.changed_paths@[i])@,
                )
            };
        let j = choose|j: int| 0 <= j < hints.len() && hints[j] == p;
        lemma_directory_listed(hints, j);
        assert(changed[i] == candidate.changed_paths@[i]@);
        lemma_directory_listed(changed, i);
        lemma_in_common(da, db, relevance::directory(p)->Some_0);
    } else {
        assert forall|x: Seq<char>| !(da.contains(x) && db.contains(x)) by {
            if da.contains(x) && db.contains(x) {
                lemma_directory_of(hints, x);
                lemma_directory_of(changed, x);
                let j = choose|j: int|
                    0 <= j < hints.len() && relevance::directory(#[trigger] hints[j]) == Some(x);
                let i = choose|i: int|
                    0 <= i < changed.len() && relevance::directory(#[trigger] changed[i]) == Some(
                        x,
                    );
                assert(hints.contains(hints[j]));
                assert(changed[i] == candidate.changed_paths@[i]@);
                assert(relevance::directory(hints[j]) is Some);
            }
        }
        lemma_nothing_in_common(da, db);
    }
    if share_a_tag(task, candidate) {
        let (i, j) = choose|i: int, j: int|
            0 <= i < task.tags@.len() && 0 <= j < candidate.task.tags@.len() && text::lower(
                (#[trigger] task.tags@[i])@,
            ) == text::lower((#[trigger] candidate.task.tags@[j])@);
        assert(ta[i] == text::lower(task.tags@[i]@));
        assert(tb[j] == text::lower(candidate.task.tags@[j]@));
        lemma_in_common(ta, tb, ta[i]);
    } else {
        assert forall|x: Seq<char>| !(ta.contains(x) && tb.contains(x)) by {
            if ta.contains(x) && tb.contains(x) {
                let i = choose|i: int| 0 <= i < ta.len() && ta[i] == x;
                let j = choose|j: int| 0 <= j < tb.len() && tb[j] == x;
                assert(text::lower(task.tags@[i]@) == text::lower(candidate.task.tags@[j]@));
            }
        }
        lemma_nothing_in_common(ta, tb);
    }
    if share_a_keyword(task, candidate) {
        let w = choose|w: Seq<char>| #[trigger] ka.contains(w) && kb.contains(w);
        lemma_in_common(ka, kb, w);
    } else {
        assert forall|x: Seq<char>| !(ka.contains(x) && kb.contains(x)) by {}
        lemma_nothing_in_common(ka, kb);
    }
}

proof fn lemma_nothing_in_common(a: Seq<Seq<char>>, b: Seq<Seq<char>>)
    requires
        forall|x: Seq<char>| !(a.contains(x) && b.contains(x)),
    ensures
        relevance::common(a, b) == 0,
{
    assert(a.to_set().intersect(b.to_set()) =~= Set::empty());
}

proof fn lemma_directory_of(ps: Seq<Seq<char>>, d: Seq<char>)
    requires
        relevance::directories(ps).contains(d),
    ensures
        exists|i: int| 0 <= i < ps.len() && relevance::directory(#[trigger] ps[i]) == Some(d),
    decreases ps.len(),
{
    let all = relevance::directories(ps);
    if ps.len() > 0 {
        let front = ps.drop_last();
        if relevance::directory(ps.last()) == Some(d) {
            assert(relevance::directory(ps[ps.len() - 1]) == Some(d));
        } else {
            let k = choose|k: int| 0 <= k < all.len() && all[k] == d;
            assert(relevance::directories(front)[k] == d);
            lemma_directory_of(front, d);
            let i = choose|i: int|
                0 <= i < front.len() && relevance::directory(#[trigger] front[i]) == Some(d);
            assert(ps[i] == front[i]);
        }
    }
}

/// One more changed path raises the score by exactly three where its directory
/// holds a path that the description names and no path that was changed
/// before, and by nothing otherwise.
pub proof fn law_one_more_changed_path(task: Task, before: Candidate, after: Candidate, path: String)
    requires
        after.task == before.task,
        after.changed_paths@ == before.changed_paths@.push(path),
    ensures
        ({
            let d = relevance::directory(path@);
            let named = relevance::directories(relevance::path_hints(task.description@));
            let old = relevance::directories(text::views(before.changed_paths@));
            let is_new = d is Some && named.contains(d->Some_0) && !old.contains(d->Some_0);
            learnings::resemblance(task, after) == learnings::resemblance(task, before) + (
            if is_new {
                3int
            } else {
                0
            })
        }),
{
    let named = relevance::directories(relevance::path_hints(task.description@));
    let old = text::views(before.changed_paths@);
    let new = text::views(after.changed_paths@);
    assert(new =~= old.push(path@));
    assert(new.drop_last() =~= old);
    if let Some(d) = relevance::directory(path@) {
        law_one_more_in_common(named, relevance::directories(old), d);
    }
}

/// One more tag raises the score by exactly four where the task has it, in
/// whatever case, and the other had it not, and by nothing otherwise.
pub proof fn law_one_more_tag(task: Task, before: Candidate, after: Candidate, tag: String)
    requires
        after.changed_paths == before.changed_paths,
        after.task.title == before.task.title,
        after.task.description == before.task.description,
        after.task.tags@ == before.task.tags@.push(tag),
    ensures
        ({
            let own = relevance::lowered(text::views(task.tags@));
            let old = relevance::lowered(text::views(before.task.tags@));
            let t = text::lower(tag@);
            learnings::resemblance(task, after) == learnings::resemblance(task, before) + (
            if own.contains(t) && !old.contains(t) {
                4int
            } else {
                0
            })
        }),
{
    let own = relevance::lowered(text::views(task.tags@));
    let old = relevance::lowered(text::views(before.task.tags@));
    let new = relevance::lowered(text::views(after.task.tags@));
    assert(new =~= old.push(text::lower(tag@)));
    law_one_more_in_common(own, old, text::lower(tag@));
}

/// One more keyword raises the score by exactly one where the task has it.
pub proof fn law_one_more_keyword(task: Task, before: Candidate, after: Candidate, w: Seq<char>)
    requires
        after.changed_paths == before.changed_paths,
        after.task.tags == before.task.tags,
        relevance::keywords(
            after.task.title@ + "\n"@ + after.task.description@,
        ).to_set() == relevance::keywords(
            before.task.title@ + "\n"@ + before.task.description@,
        ).push(w).to_set(),
        !relevance::keywords(
            before.task.title@ + "\n"@ + before.task.description@,
        ).contains(w),
    ensures
        learnings::resemblance(task, after) == learnings::resemblance(task, before) + (
        if relevance::keywords(task.title@ + "\n"@ + task.description@).contains(w) {
            1int
        } else {
            0
        }),
{
    law_one_more_in_common(
        relevance::keywords(learnings::task_text(task)),
        relevance::keywords(learnings::task_text(before.task)),
        w,
    );
}

/// Another task that is done and shares something.
pub open spec fn is_related(task: Task, candidate: Candidate) -> bool {
    &&& candidate.task.id != task.id
    &&& candidate.task.status@ == "done"@
    &&& share_a_directory(task, candidate) || share_a_tag(task, candidate) || share_a_keyword(
        task,
        candidate,
    )
}

proof fn lemma_related(
    task: Task,
    candidates: Seq<Candidate>,
    metrics: Map<u32, TaskMetricsSummary>,
    n: int,
)
    requires
        0 <= n <= candidates.len() <= usize::MAX,
        learnings::is_countable(task),
    ensures
        ({
            let all = learnings::related_state(task, candidates, metrics, n).0;
            &&& forall|k: int|
                0 <= k < all.len() ==> (#[trigger] all[k]).candidate < n && is_related(
                    task,
                    candidates[all[k].candidate as int],
                ) && all[k].score == learnings::resemblance(
                    task,
                    candidates[all[k].candidate as int],
                ) as usize
            &&& forall|i: int|
                0 <= i < n && is_related(task, #[trigger] candidates[i]) ==> exists|k: int|
                    0 <= k < all.len() && (#[trigger] all[k]).candidate == i
            &&& forall|k: int, m: int|
                0 <= k < m < all.len() ==> (#[trigger] all[k]).candidate < (
                #[trigger] all[m]).candidate
        }),
    decreases n,
{
    if n > 0 {
        lemma_related(task, candidates, metrics, n - 1);
        let before = learnings::related_state(task, candidates, metrics, n - 1).0;
        let all = learnings::related_state(task, candidates, metrics, n).0;
        let c = candidates[n - 1];
        law_what_is_shared_counts(task, c);
        assert forall|i: int| 0 <= i < n && is_related(task, #[trigger] candidates[i]) implies exists|
            k: int,
        |
            0 <= k < all.len() && (#[trigger] all[k]).candidate == i by {
            if i < n - 1 {
                let k = choose|k: int| 0 <= k < before.len() && (#[trigger] before[k]).candidate == i;
                assert(all[k] == before[k]);
            } else {
                assert(all[all.len() - 1].candidate == i);
            }
        }
        assert forall|k: int| 0 <= k < all.len() implies (#[trigger] all[k]).candidate < n
            && is_related(task, candidates[all[k].candidate as int]) && all[k].score
            == learnings::resemblance(task, candidates[all[k].candidate as int]) as usize by {
            if k < before.len() {
                assert(all[k] == before[k]);
            }
        }
        assert forall|k: int, m: int| 0 <= k < m < all.len() implies (
        #[trigger] all[k]).candidate < (#[trigger] all[m]).candidate by {
            assert(all[k] == before[k]);
            if m < before.len() {
                assert(all[m] == before[m]);
            }
        }
    }
}

/// The related tasks that are shown are other tasks that are done and share
/// something with this one, each once, the higher score first. No task that
/// is left out scores higher than one that is shown, and none is left out
/// while there is room.
pub proof fn law_most_related_tasks_are_shown(
    task: Task,
    candidates: Seq<Candidate>,
    metrics: Map<u32, TaskMetricsSummary>,
    limit: nat,
)
    requires
        candidates.len() <= usize::MAX,
        learnings::is_countable(task),
        forall|i: int|
            0 <= i < candidates.len() ==> learnings::resemblance(task, #[trigger] candidates[i])
                <= usize::MAX,
    ensures
        ({
            let shown = learnings::most_related(task, candidates, metrics, limit);
            &&& shown.len() <= limit
            &&& forall|k: int|
                0 <= k < shown.len() ==> (#[trigger] shown[k]).candidate < candidates.len()
                    && is_related(task, candidates[shown[k].candidate as int]) && shown[k].score
                    == learnings::resemblance(task, candidates[shown[k].candidate as int])
            &&& forall|k: int, m: int|
                0 <= k < m < shown.len() ==> (#[trigger] shown[k]).score >= (
                #[trigger] shown[m]).score && shown[k].candidate != shown[m].candidate
            &&& forall|i: int|
                0 <= i < candidates.len() && is_related(task, #[trigger] candidates[i]) ==> (
                exists|k: int| 0 <= k < shown.len() && (#[trigger] shown[k]).candidate == i) || (
                shown.len() == limit && forall|k: int|
                    0 <= k < shown.len() ==> (#[trigger] shown[k]).score >= learnings::resemblance(
                        task,
                        candidates[i],
                    ))
        }),
{
    let n = candidates.len() as int;
    let all = learnings::related_state(task, candidates, metrics, n).0;
    lemma_related(task, candidates, metrics, n);
    lemma_related_len(task, candidates, metrics, n);
    let keys = learnings::related_keys(candidates, all);
    ranking::law_ranking_is_in_order(keys);
    let o = ranking::ranking(keys);
    let ranked = order::pick(all, o);
    let shown = learnings::most_related(task, candidates, metrics, limit);
    assert forall|k: int| 0 <= k < shown.len() implies (#[trigger] shown[k]).candidate
        < candidates.len() && is_related(task, candidates[shown[k].candidate as int])
        && shown[k].score == learnings::resemblance(
        task,
        candidates[shown[k].candidate as int],
    ) by {
        assert(shown[k] == all[o[k] as int]);
    }
    assert forall|k: int, m: int| 0 <= k < m < shown.len() implies (#[trigger] shown[k]).score >= (
    #[trigger] shown[m]).score && shown[k].candidate != shown[m].candidate by {
        assert(shown[k] == all[o[k] as int] && shown[m] == all[o[m] as int]);
        assert(!ranking::outranks(keys[o[m] as int], keys[o[k] as int]));
        assert(o[k] != o[m]);
    }
    assert forall|i: int| 0 <= i < candidates.len() && is_related(task, #[trigger] candidates[i]) implies (
    exists|k: int| 0 <= k < shown.len() && (#[trigger] shown[k]).candidate == i) || (shown.len()
        == limit && forall|k: int|
        0 <= k < shown.len() ==> (#[trigger] shown[k]).score >= learnings::resemblance(
            task,
            candidates[i],
        )) by {
        let a = choose|a: int| 0 <= a < all.len() && (#[trigger] all[a]).candidate == i;
        ranking::law_ranking_holds_all(keys, a as usize);
        let r = choose|r: int| 0 <= r < o.len() && o[r] == a;
        if r < shown.len() {
            assert(shown[r].candidate == i);
        } else {
            assert forall|k: int| 0 <= k < shown.len() implies (#[trigger] shown[k]).score
                >= learnings::resemblance(task, candidates[i]) by {
                assert(!ranking::outranks(keys[o[r] as int], keys[o[k] as int]));
                assert(shown[k] == all[o[k] as int]);
            }
        }
    }
}

proof fn lemma_related_len(
    task: Task,
    candidates: Seq<Candidate>,
    metrics: Map<u32, TaskMetricsSummary>,
    n: int,
)
    requires
        0 <= n,
    ensures
        learnings::related_state(task, candidates, metrics, n).0.len() <= n,
    decreases n,
{
    if n > 0 {
        lemma_related_len(task, candidates, metrics, n - 1);
    }
}

// ---------------------------------------------------------------------------
// Learnings

/// One more tag of a learning raises its fitness by exactly three where the
/// task has it, and one more keyword by one; a learning without either fits
/// nothing.
pub proof fn law_learnings_fit_by_tags_and_keywords(
    task: Task,
    bare: LearningEntry,
    before: LearningEntry,
    tagged: LearningEntry,
    worded: LearningEntry,
    tag: String,
    word: String,
)
    requires
        bare.tags@.len() == 0,
        bare.keywords@.len() == 0,
        tagged.tags@ == before.tags@.push(tag),
        tagged.keywords == before.keywords,
        worded.tags == before.tags,
        worded.keywords@ == before.keywords@.push(word),
    ensures
        learnings::fitness(task, bare) == 0,
        learnings::fitness(task, tagged) == learnings::fitness(task, before) + (
        if relevance::lowered(text::views(task.tags@)).contains(text::lower(tag@)) {
            3int
        } else {
            0
        }),
        learnings::fitness(task, worded) == learnings::fitness(task, before) + (
        if relevance::keywords(task.title@ + "\n"@ + task.description@).contains(word@) {
            1int
        } else {
            0
        }),
{
    let t0 = relevance::lowered(text::views(before.tags@));
    let t1 = relevance::lowered(text::views(tagged.tags@));
    assert(t1 =~= t0.push(text::lower(tag@)));
    assert(t1.drop_last() =~= t0);
    let k0 = text::views(before.keywords@);
    let k1 = text::views(worded.keywords@);
    assert(k1 =~= k0.push(word@));
    assert(k1.drop_last() =~= k0);
    assert(relevance::lowered(text::views(bare.tags@)).len() == 0);
    assert(text::views(bare.keywords@).len() == 0);
}

proof fn lemma_fitting(task: Task, entries: Seq<LearningEntry>, n: int)
    requires
        0 <= n <= entries.len() <= usize::MAX,
    ensures
        ({
            let all = learnings::fitting(task, entries, n);
            &&& all.len() <= n
            &&& forall|k: int|
                0 <= k < all.len() ==> (#[trigger] all[k]).1 < n && entries[all[k].1 as int].task_id
                    != task.id && learnings::fitness(task, entries[all[k].1 as int]) > 0
                    && all[k].0 == learnings::fitness(task, entries[all[k].1 as int]) as usize
            &&& forall|i: int|
                0 <= i < n && (#[trigger] entries[i]).task_id != task.id && learnings::fitness(
                    task,
                    entries[i],
                ) > 0 ==> exists|k: int| 0 <= k < all.len() && (#[trigger] all[k]).1 == i
            &&& forall|k: int, m: int|
                0 <= k < m < all.len() ==> (#[trigger] all[k]).1 < (#[trigger] all[m]).1
        }),
    decreases n,
{
    if n > 0 {
        lemma_fitting(task, entries, n - 1);
        let before = learnings::fitting(task, entries, n - 1);
        let all = learnings::fitting(task, entries, n);
        assert forall|i: int|
            0 <= i < n && (#[trigger] entries[i]).task_id != task.id && learnings::fitness(
                task,
                entries[i],
            ) > 0 implies exists|k: int| 0 <= k < all.len() && (#[trigger] all[k]).1 == i by {
            if i < n - 1 {
                let k = choose|k: int| 0 <= k < before.len() && (#[trigger] before[k]).1 == i;
                assert(all[k] == before[k]);
            } else {
                assert(all[all.len() - 1].1 == i);
            }
        }
        assert forall|k: int| 0 <= k < all.len() implies (#[trigger] all[k]).1 < n && entries[all[k].1 as int].task_id
            != task.id && learnings::fitness(task, entries[all[k].1 as int]) > 0 && all[k].0
            == learnings::fitness(task, entries[all[k].1 as int]) as usize by {
            if k < before.len() {
                assert(all[k] == before[k]);
            }
        }
        assert forall|k: int, m: int| 0 <= k < m < all.len() implies (#[trigger] all[k]).1 < (
        #[trigger] all[m]).1 by {
            assert(all[k] == before[k]);
            if m < before.len() {
                assert(all[m] == before[m]);
            }
        }
    }
}

/// The learnings that are shown are of other tasks and fit this one, each
/// once, the better first. None that is left out fits better than one that is
/// shown, and none is left out while there is room.
pub proof fn law_most_fitting_learnings_are_shown(
    task: Task,
    entries: Seq<LearningEntry>,
    limit: nat,
)
    requires
        entries.len() <= usize::MAX,
        forall|i: int|
            0 <= i < entries.len() ==> learnings::fitness(task, #[trigger] entries[i])
                <= usize::MAX,
    ensures
        ({
            let shown = learnings::most_fitting(task, entries, limit);
            let fits = |i: int|
                entries[i].task_id != task.id && learnings::fitness(task, entries[i]) > 0;
            &&& shown.len() <= limit
            &&& forall|k: int|
                0 <= k < shown.len() ==> (#[trigger] shown[k]) < entries.len() && fits(
                    shown[k] as int,
                )
            &&& forall|k: int, m: int|
                0 <= k < m < shown.len() ==> learnings::fitness(
                    task,
                    entries[#[trigger] shown[k] as int],
                ) >= learnings::fitness(task, entries[#[trigger] shown[m] as int]) && shown[k]
                    != shown[m]
            &&& forall|i: int|
                0 <= i < entries.len() && (#[trigger] entries[i]).task_id != task.id
                    && learnings::fitness(task, entries[i]) > 0 ==> shown.contains(i as usize) || (
                shown.len() == limit && forall|k: int|
                    0 <= k < shown.len() ==> learnings::fitness(
                        task,
                        entries[#[trigger] shown[k] as int],
                    ) >= learnings::fitness(task, entries[i]))
        }),
{
    let n = entries.len() as int;
    let all = learnings::fitting(task, entries, n);
    lemma_fitting(task, entries, n);
    let keys = learnings::learning_keys(entries, all);
    ranking::law_ranking_is_in_order(keys);
    let o = ranking::ranking(keys);
    let ranked = order::pick(all, o);
    let shown = learnings::most_fitting(task, entries, limit);
    assert forall|k: int, m: int| 0 <= k < m < shown.len() implies learnings::fitness(
        task,
        entries[#[trigger] shown[k] as int],
    ) >= learnings::fitness(task, entries[#[trigger] shown[m] as int]) && shown[k] != shown[m] by {
        assert(shown[k] == all[o[k] as int].1 && shown[m] == all[o[m] as int].1);
        assert(!ranking::outranks(keys[o[m] as int], keys[o[k] as int]));
        assert(o[k] != o[m]);
    }
    assert forall|k: int| 0 <= k < shown.len() implies (#[trigger] shown[k]) < entries.len()
        && entries[shown[k] as int].task_id != task.id && learnings::fitness(
        task,
        entries[shown[k] as int],
    ) > 0 by {
        assert(shown[k] == all[o[k] as int].1);
    }
    assert forall|i: int|
        0 <= i < entries.len() && (#[trigger] entries[i]).task_id != task.id && learnings::fitness(
            task,
            entries[i],
        ) > 0 implies shown.contains(i as usize) || (shown.len() == limit && forall|k: int|
        0 <= k < shown.len() ==> learnings::fitness(task, entries[#[trigger] shown[k] as int])
            >= learnings::fitness(task, entries[i])) by {
        let a = choose|a: int| 0 <= a < all.len() && (#[trigger] all[a]).1 == i;
        ranking::law_ranking_holds_all(keys, a as usize);
        let r = choose|r: int| 0 <= r < o.len() && o[r] == a;
        if r < shown.len() {
            assert(shown[r] == i);
        } else {
            assert forall|k: int| 0 <= k < shown.len() implies learnings::fitness(
                task,
                entries[#[trigger] shown[k] as int],
            ) >= learnings::fitness(task, entries[i]) by {
                assert(!ranking::outranks(keys[o[r] as int], keys[o[k] as int]));
                assert(shown[k] == all[o[k] as int].1);
            }
        }
    }
}

// ---------------------------------------------------------------------------
// Files

/// A path weighs nothing that no related task changed and the description
/// does not name. The description adds two; a related task adds its score for
/// each time that it lists the path, and at least one.
pub proof fn law_paths_are_weighed(
    candidates: Seq<Candidate>,
    related: Seq<RelatedTaskContext>,
    more: RelatedTaskContext,
    hints: Seq<Seq<char>>,
    path: Seq<char>,
)
    requires
        candidates[more.candidate as int].changed_paths@.len() > 0,
        text::views(candidates[more.candidate as int].changed_paths@).no_duplicates(),
    ensures
        assignment::total_weight(candidates, Seq::empty(), Seq::empty(), path) == 0,
        hints.contains(path) ==> assignment::total_weight(candidates, related, hints, path)
            == assignment::total_weight(candidates, related, Seq::empty(), path) + 2,
        !hints.contains(path) ==> assignment::total_weight(candidates, related, hints, path)
            == assignment::total_weight(candidates, related, Seq::empty(), path),
        assignment::total_weight(candidates, related.push(more), hints, path)
            == assignment::total_weight(candidates, related, hints, path) + (if text::views(
            candidates[more.candidate as int].changed_paths@,
        ).contains(path) {
            if more.score == 0 {
                1int
            } else {
                more.score as int
            }
        } else {
            0
        }),
{
    let n = related.len() as int;
    lemma_weight_of(candidates, related, more, path, n);
    let list = text::views(candidates[more.candidate as int].changed_paths@);
    lemma_weight_in(list, path, assignment::path_weight(more.score));
    assert(!Seq::<Seq<char>>::empty().contains(path));
}

proof fn lemma_weight_of(
    candidates: Seq<Candidate>,
    related: Seq<RelatedTaskContext>,
    more: RelatedTaskContext,
    path: Seq<char>,
    n: int,
)
    requires
        0 <= n <= related.len(),
    ensures
        assignment::weight_of(candidates, related.push(more), path, n) == assignment::weight_of(
            candidates,
            related,
            path,
            n,
        ),
    decreases n,
{
    if n > 0 {
        lemma_weight_of(candidates, related, more, path, n - 1);
    }
}

proof fn lemma_weight_in(list: Seq<Seq<char>>, path: Seq<char>, weight: nat)
    requires
        list.no_duplicates(),
    ensures
        assignment::weight_in(list, path, weight) == (if list.contains(path) {
            weight
        } else {
            0
        }),
    decreases list.len(),
{
    if list.len() > 0 {
        let front = list.drop_last();
        lemma_weight_in(front, path, weight);
        if list.last() == path {
            assert(list[list.len() - 1] == path);
            assert(!front.contains(path)) by {
                if front.contains(path) {
                    let i = choose|i: int| 0 <= i < front.len() && front[i] == path;
                    assert(list[i] == list[list.len() - 1]);
                }
            }
        } else {
            assert(front.contains(path) == list.contains(path)) by {
                if list.contains(path) {
                    let i = choose|i: int| 0 <= i < list.len() && list[i] == path;
                    assert(front[i] == path);
                }
                if front.contains(path) {
                    let i = choose|i: int| 0 <= i < front.len() && front[i] == path;
                    assert(list[i] == path);
                }
            }
        }
    }
}

/// The predicted files are paths that a related task changed or that the
/// description names, each once, the weightier first; at most five, and none
/// that is left out weighs more than one that is predicted.
pub proof fn law_weightiest_files_are_predicted(
    candidates: Seq<Candidate>,
    related: Seq<RelatedTaskContext>,
    hints: Seq<Seq<char>>,
    files: Seq<Seq<char>>,
)
    requires
        assignment::is_prediction(candidates, related, hints, files),
        assignment::are_weighable(candidates, related),
        assignment::changed_by(candidates, related, related.len() as int).len() + hints.len()
            <= usize::MAX,
    ensures
        files.len() <= 5,
        files.no_duplicates(),
        forall|k: int|
            0 <= k < files.len() ==> assignment::changed_by(
                candidates,
                related,
                related.len() as int,
            ).contains(#[trigger] files[k]) || hints.contains(files[k]),
        forall|k: int, m: int|
            0 <= k < m < files.len() ==> assignment::total_weight(
                candidates,
                related,
                hints,
                #[trigger] files[k],
            ) >= assignment::total_weight(candidates, related, hints, #[trigger] files[m]),
        forall|p: Seq<char>|
            (assignment::changed_by(candidates, related, related.len() as int).contains(p)
                || hints.contains(p)) && !(#[trigger] files.contains(p)) ==> files.len() == 5
                && forall|k: int|
                0 <= k < files.len() ==> assignment::total_weight(
                    candidates,
                    related,
                    hints,
                    #[trigger] files[k],
                ) >= assignment::total_weight(candidates, related, hints, p),
{
    let changed = assignment::changed_by(candidates, related, related.len() as int);
    let sorted = choose|sorted: Seq<Seq<char>>|
        {
            &&& #[trigger] text::is_increasing(sorted)
            &&& forall|p: Seq<char>| #[trigger]
                sorted.contains(p) <==> changed.contains(p) || hints.contains(p)
            &&& files == learnings::at_most(
                order::pick(
                    sorted,
                    ranking::ranking(assignment::path_keys(candidates, related, hints, sorted)),
                ),
                MAX_FILE_PREDICTIONS as nat,
            )
        };
    let keys = assignment::path_keys(candidates, related, hints, sorted);
    lemma_increasing(sorted);
    assert forall|x: Seq<char>| #[trigger] sorted.contains(x) implies (changed + hints).contains(
        x,
    ) by {
        let both = changed + hints;
        if changed.contains(x) {
            let i = choose|i: int| 0 <= i < changed.len() && changed[i] == x;
            assert(both[i] == x);
        } else {
            let i = choose|i: int| 0 <= i < hints.len() && hints[i] == x;
            assert(both[changed.len() + i] == x);
        }
    }
    lemma_no_more(sorted, changed + hints);
    ranking::law_ranking_is_in_order(keys);
    let o = ranking::ranking(keys);
    assert forall|k: int| 0 <= k < files.len() implies (changed.contains(#[trigger] files[k])
        || hints.contains(files[k])) by {
        assert(files[k] == sorted[o[k] as int]);
        assert(sorted.contains(files[k]));
    }
    assert forall|i: int, j: int| 0 <= i < files.len() && 0 <= j < files.len() && i != j implies files[i]
        != files[j] by {
        assert(files[i] == sorted[o[i] as int] && files[j] == sorted[o[j] as int]);
        assert(o[i] != o[j]);
    }
    assert forall|k: int| 0 <= k < sorted.len() implies (#[trigger] keys[k]).score
        == assignment::total_weight(candidates, related, hints, sorted[k]) by {
        assert(assignment::weight_of(candidates, related, sorted[k], related.len() as int) + 2
            <= usize::MAX);
    }
    assert forall|k: int, m: int| 0 <= k < m < files.len() implies assignment::total_weight(
        candidates,
        related,
        hints,
        #[trigger] files[k],
    ) >= assignment::total_weight(candidates, related, hints, #[trigger] files[m]) by {
        assert(files[k] == sorted[o[k] as int] && files[m] == sorted[o[m] as int]);
        assert(!ranking::outranks(keys[o[m] as int], keys[o[k] as int]));
        assert(keys[o[m] as int].score <= keys[o[k] as int].score);
    }
    assert forall|p: Seq<char>|
        (changed.contains(p) || hints.contains(p)) && !(#[trigger] files.contains(p)) implies files.len()
        == 5 && forall|k: int|
        0 <= k < files.len() ==> assignment::total_weight(
            candidates,
            related,
            hints,
            #[trigger] files[k],
        ) >= assignment::total_weight(candidates, related, hints, p) by {
        assert(sorted.contains(p));
        let a = choose|a: int| 0 <= a < sorted.len() && sorted[a] == p;
        ranking::law_ranking_holds_all(keys, a as usize);
        let r = choose|r: int| 0 <= r < o.len() && o[r] == a;
        if r < files.len() {
            assert(files[r] == p);
        }
        assert forall|k: int| 0 <= k < files.len() implies assignment::total_weight(
            candidates,
            related,
            hints,
            #[trigger] files[k],
        ) >= assignment::total_weight(candidates, related, hints, p) by {
            assert(files[k] == sorted[o[k] as int]);
            assert(!ranking::outranks(keys[o[r] as int], keys[o[k] as int]));
            assert(keys[o[r] as int].score <= keys[o[k] as int].score);
        }
    }
}

proof fn lemma_increasing(s: Seq<Seq<char>>)
    requires
        text::is_increasing(s),
    ensures
        s.no_duplicates(),
{
    assert forall|i: int, j: int| 0 <= i < s.len() && 0 <= j < s.len() && i != j implies s[i]
        != s[j] by {
        if s[i] == s[j] {
            text::law_dictionary_order(s[i], s[j], s[i]);
        }
    }
}

proof fn lemma_no_more(a: Seq<Seq<char>>, b: Seq<Seq<char>>)
    requires
        a.no_duplicates(),
        forall|x: Seq<char>| #[trigger] a.contains(x) ==> b.contains(x),
    ensures
        a.len() <= b.len(),
{
    a.unique_seq_to_set();
    vstd::seq_lib::seq_to_set_is_finite(b);
    assert(a.to_set().subset_of(b.to_set()));
    vstd::set_lib::lemma_len_subset(a.to_set(), b.to_set());
    b.lemma_cardinality_of_set();
}

// ---------------------------------------------------------------------------
// Telemetry

/// A row of the telemetry counts for the task whose number it bears, the last
/// such row, and for no other; a row without a number counts for none.
pub proof fn law_last_row_of_a_task_counts(rows: Seq<TaskMetricsRow>, row: TaskMetricsRow, n: u32)
    ensures
        ({
            let before = learnings::metrics_map(rows);
            let now = learnings::metrics_map(rows.push(row));
            &&& row.task_id@ == text::decimal(n as nat) ==> now == before.insert(n, row.metrics)
            &&& row.task_id@.len() == 0 ==> now == before
            &&& (exists|i: int|
                1 <= i < row.task_id@.len() && !('0' <= #[trigger] row.task_id@[i] <= '9')) ==> now
                == before
            &&& learnings::metrics_map(Seq::empty()) == Map::<u32, TaskMetricsSummary>::empty()
        }),
{
    assert(rows.push(row).drop_last() =~= rows);
    let d = text::decimal(n as nat);
    digits::lemma_decimal_digits(n as nat);
    git_laws::lemma_value_of_decimal(n as nat);
    assert(text::is_digit(d[0]));
    assert(git_ops::without_plus(d) == d);
    assert(git_ops::parse_u32_spec(d) == Some(n));
    let t = row.task_id@;
    if exists|i: int| 1 <= i < t.len() && !('0' <= #[trigger] t[i] <= '9') {
        let i = choose|i: int| 1 <= i < t.len() && !('0' <= #[trigger] t[i] <= '9');
        let w = git_ops::without_plus(t);
        if t[0] == '+' {
            assert(w[i - 1] == t[i]);
        } else {
            assert(w[i] == t[i]);
        }
        assert(git_ops::parse_u32_spec(t) is None);
    }
}

/// The events that concern some tasks are those that name one of them, in their
/// order.
pub proof fn law_events_concern_named_tasks(
    tasks: Seq<Option<String>>,
    ids: Seq<Seq<char>>,
    n: int,
)
    requires
        0 <= n <= tasks.len() <= usize::MAX,
    ensures
        ({
            let at = learnings::concerning(tasks, ids, n);
            &&& forall|k: int|
                0 <= k < at.len() ==> (#[trigger] at[k]) < n && (tasks[at[k] as int] matches Some(t)
                    && ids.contains(t@))
            &&& forall|i: int|
                0 <= i < n && (#[trigger] tasks[i] matches Some(t) && ids.contains(t@))
                    ==> at.contains(i as usize)
            &&& forall|j: int, k: int|
                0 <= j < k < at.len() ==> #[trigger] at[j] < #[trigger] at[k]
        }),
    decreases n,
{
    if n > 0 {
        law_events_concern_named_tasks(tasks, ids, n - 1);
        let before = learnings::concerning(tasks, ids, n - 1);
        let at = learnings::concerning(tasks, ids, n);
        assert forall|i: int|
            0 <= i < n && (#[trigger] tasks[i] matches Some(t) && ids.contains(
                t@,
            )) implies at.contains(i as usize) by {
            if i < n - 1 {
                let k = choose|k: int| 0 <= k < before.len() && before[k] == i as usize;
                assert(at[k] == i as usize);
            } else {
                assert(at[at.len() - 1] == i as usize);
            }
        }
    }
}

/// A related task goes by its number.
pub proof fn law_related_tasks_go_by_their_numbers(
    candidates: Seq<Candidate>,
    related: Seq<RelatedTaskContext>,
    k: int,
)
    requires
        0 <= k < related.len(),
    ensures
        learnings::related_names(candidates, related).len() == related.len(),
        learnings::related_names(candidates, related)[k] == text::decimal(
            candidates[related[k].candidate as int].task.id as nat,
        ),
{
}

/// A learning bears the number, the title and the tags of its task, who did it,
/// and the summary without white space around it; its keywords are those of the
/// title and of the description.
pub proof fn law_learnings_are_of_their_task(
    e: LearningEntry,
    task: Task,
    engineer: Seq<char>,
    summary: Seq<char>,
    w: Seq<char>,
)
    requires
        learnings::is_learning(e, task, engineer, summary),
    ensures
        e.task_id == task.id,
        e.title@ == task.title@,
        e.tags@ == task.tags@,
        e.engineer@ == engineer,
        forall|a: Seq<char>, s: Seq<char>, b: Seq<char>|
            text_laws::is_blank(a) && text_laws::is_trimmed(s) && text_laws::is_blank(b) && summary
                == #[trigger] (a + s + b) ==> e.summary@ == s,
        text::views(e.keywords@).contains(w) <==> w.len() >= 4 && (exists|i: int|
            0 <= i < w.len() && !('0' <= #[trigger] w[i] <= '9')) && (text::words(
            text::gapped(task.title@),
        ).contains(w) || text::words(text::gapped(task.description@)).contains(w)),
{
    relevance_laws::law_keywords_say_something(task.title@, w);
    relevance_laws::law_keywords_say_something(task.description@, w);
    assert forall|a: Seq<char>, s: Seq<char>, b: Seq<char>|
        text_laws::is_blank(a) && text_laws::is_trimmed(s) && text_laws::is_blank(b) && summary
            == #[trigger] (a + s + b) implies e.summary@ == s by {
        text_laws::law_trimming_takes_white_space(a, s, b, ' ');
    }
}

} // verus!
