//! Ranking: the higher score first, then what was completed later, then the
//! higher number.

use vstd::prelude::*;

use crate::order;
use crate::order::order_by;
use crate::paths;
use crate::text;
use crate::text::{comes_before, same};

verus! {

/// What something is ranked by, the most important first.
#[derive(Clone, Debug)]
pub struct RankKey {
    pub score: usize,
    /// When it was completed, in seconds since the epoch.
    pub at: Option<i64>,
    /// When it was completed, as a text.
    pub stamp: Option<String>,
    pub id: u32,
}

/// Before in time; no time comes before any.
pub open spec fn is_earlier(a: Option<i64>, b: Option<i64>) -> bool {
    b is Some && (a is None || a->Some_0 < b->Some_0)
}

/// Before in the order of a dictionary; no text comes before any.
pub open spec fn is_lesser(a: Option<Seq<char>>, b: Option<Seq<char>>) -> bool {
    b is Some && (a is None || text::lex_lt(a->Some_0, b->Some_0))
}

/// `a` comes before `b` in a ranking.
pub open spec fn outranks(a: RankKey, b: RankKey) -> bool {
    if a.score != b.score {
        a.score > b.score
    } else if a.at != b.at {
        is_earlier(b.at, a.at)
    } else if paths::opt_view(a.stamp) != paths::opt_view(b.stamp) {
        is_lesser(paths::opt_view(b.stamp), paths::opt_view(a.stamp))
    } else {
        a.id > b.id
    }
}

fn ranks_before(a: &RankKey, b: &RankKey) -> (r: bool)
    ensures
        r == outranks(*a, *b),
{
    if a.score != b.score {
        return a.score > b.score;
    }
    match (a.at, b.at) {
        (Some(x), Some(y)) => {
            if x != y {
                return x > y;
            }
        },
        (Some(_), None) => {
            return true;
        },
        (None, Some(_)) => {
            return false;
        },
        (None, None) => {},
    }
    match (&a.stamp, &b.stamp) {
        (Some(x), Some(y)) => {
            if !same(x.as_str(), y.as_str()) {
                return comes_before(y.as_str(), x.as_str());
            }
        },
        (Some(_), None) => {
            return true;
        },
        (None, Some(_)) => {
            return false;
        },
        (None, None) => {},
    }
    a.id > b.id
}

/// How many of the first `n` come before the one at `i`.
pub open spec fn standing(keys: Seq<RankKey>, i: int, n: int) -> nat
    decreases n,
{
    if n <= 0 {
        0
    } else {
        standing(keys, i, n - 1) + (if outranks(keys[n - 1], keys[i]) {
            1nat
        } else {
            0nat
        })
    }
}

/// The number of those before each.
pub open spec fn standings(keys: Seq<RankKey>) -> Seq<(u64, u64)> {
    Seq::new(keys.len(), |i: int| (standing(keys, i, keys.len() as int) as u64, 0u64))
}

/// The positions in the order of their rank; those of one rank stay in the
/// order in which they stand.
pub open spec fn ranking(keys: Seq<RankKey>) -> Seq<usize> {
    order::stable_order(standings(keys))
}

fn count_before(keys: &Vec<RankKey>, i: usize) -> (r: usize)
    requires
        i < keys@.len(),
    ensures
        r == standing(keys@, i as int, keys@.len() as int),
{
    let mut count: usize = 0;
    let mut n: usize = 0;
    while n < keys.len()
        invariant
            n <= keys@.len(),
            i < keys@.len(),
            count <= n,
            count == standing(keys@, i as int, n as int),
        decreases keys@.len() - n,
    {
        if ranks_before(&keys[n], &keys[i]) {
            count += 1;
        }
        n += 1;
    }
    count
}

/// Ranks the keys: returns their positions in order.
pub fn rank_by(keys: &Vec<RankKey>) -> (r: Vec<usize>)
    ensures
        r@ == ranking(keys@),
{
    let mut out: Vec<(u64, u64)> = Vec::new();
    let mut i: usize = 0;
    while i < keys.len()
        invariant
            i <= keys@.len(),
            out@ == standings(keys@).take(i as int),
        decreases keys@.len() - i,
    {
        out.push((count_before(keys, i) as u64, 0));
        i += 1;
        assert(standings(keys@).take(i as int) == standings(keys@).take(i - 1).push(
            standings(keys@)[i - 1],
        ));
    }
    assert(standings(keys@).take(i as int) == standings(keys@));
    order_by(&out)
}

// ---------------------------------------------------------------------------
// Laws

proof fn lemma_outranks(a: RankKey, b: RankKey, c: RankKey)
    ensures
        outranks(a, b) && outranks(b, c) ==> outranks(a, c),
        !outranks(a, a),
        outranks(a, b) ==> !outranks(b, a),
{
    let x = paths::opt_view(a.stamp);
    let y = paths::opt_view(b.stamp);
    let z = paths::opt_view(c.stamp);
    if x is Some && y is Some {
        text::law_dictionary_order(y->Some_0, x->Some_0, y->Some_0);
    }
    if x is Some && y is Some && z is Some {
        text::law_dictionary_order(z->Some_0, y->Some_0, x->Some_0);
        text::law_dictionary_order(x->Some_0, z->Some_0, x->Some_0);
    }
}

proof fn lemma_standing(keys: Seq<RankKey>, a: int, b: int, n: int)
    requires
        outranks(keys[a], keys[b]),
    ensures
        standing(keys, a, n) <= standing(keys, b, n),
        0 <= a < n ==> standing(keys, a, n) < standing(keys, b, n),
        standing(keys, b, n) <= if n > 0 {
            n
        } else {
            0
        },
    decreases n,
{
    if n > 0 {
        lemma_standing(keys, a, b, n - 1);
        lemma_outranks(keys[n - 1], keys[a], keys[b]);
        lemma_outranks(keys[a], keys[a], keys[a]);
    }
}

/// A ranking holds every position once, and none that comes before another
/// stands behind it.
pub proof fn law_ranking_is_in_order(keys: Seq<RankKey>)
    requires
        keys.len() <= usize::MAX,
    ensures
        ranking(keys).len() == keys.len(),
        ranking(keys).no_duplicates(),
        forall|i: int| 0 <= i < keys.len() ==> (#[trigger] ranking(keys)[i]) < keys.len(),
        forall|i: int, j: int|
            0 <= i < j < keys.len() ==> !outranks(
                keys[#[trigger] ranking(keys)[j] as int],
                keys[#[trigger] ranking(keys)[i] as int],
            ),
{
    let s = standings(keys);
    order::law_stable_order(s);
    let o = ranking(keys);
    let n = keys.len() as int;
    assert forall|i: int, j: int| 0 <= i < j < keys.len() implies !outranks(
        keys[#[trigger] o[j] as int],
        keys[#[trigger] o[i] as int],
    ) by {
        let a = o[j] as int;
        let b = o[i] as int;
        if outranks(keys[a], keys[b]) {
            lemma_standing(keys, a, b, n);
            assert(order::key_le(s[b], s[a]));
        }
    }
}

/// Every position is in the ranking.
pub proof fn law_ranking_holds_all(keys: Seq<RankKey>, i: usize)
    requires
        keys.len() <= usize::MAX,
        i < keys.len(),
    ensures
        ranking(keys).contains(i),
{
    order::law_stable_order(standings(keys));
}

proof fn lemma_same_standing(keys: Seq<RankKey>, a: int, b: int, n: int)
    requires
        !outranks(keys[a], keys[b]),
        !outranks(keys[b], keys[a]),
    ensures
        standing(keys, a, n) == standing(keys, b, n),
    decreases n,
{
    if n > 0 {
        lemma_same_standing(keys, a, b, n - 1);
        lemma_tied(keys[n - 1], keys[a], keys[b]);
        lemma_tied(keys[n - 1], keys[b], keys[a]);
    }
}

/// What comes before one of two of the same rank comes before the other.
proof fn lemma_tied(c: RankKey, a: RankKey, b: RankKey)
    requires
        !outranks(a, b),
        !outranks(b, a),
    ensures
        outranks(c, a) ==> outranks(c, b),
{
    let x = paths::opt_view(a.stamp);
    let y = paths::opt_view(b.stamp);
    if x is Some && y is Some {
        text::law_dictionary_order(x->Some_0, y->Some_0, x->Some_0);
    }
}

/// Those of one rank stay in the order in which they stand.
pub proof fn law_equal_ranks_keep_their_order(keys: Seq<RankKey>)
    requires
        keys.len() <= usize::MAX,
    ensures
        forall|i: int, j: int|
            0 <= i < j < keys.len() && !outranks(
                keys[ranking(keys)[i] as int],
                keys[ranking(keys)[j] as int],
            ) ==> (#[trigger] ranking(keys)[i]) < (#[trigger] ranking(keys)[j]),
{
    let s = standings(keys);
    order::law_stable_order(s);
    law_ranking_is_in_order(keys);
    let o = ranking(keys);
    assert forall|i: int, j: int|
        0 <= i < j < keys.len() && !outranks(keys[o[i] as int], keys[o[j] as int]) implies (
    #[trigger] o[i]) < (#[trigger] o[j]) by {
        lemma_same_standing(keys, o[i] as int, o[j] as int, keys.len() as int);
        assert(s[o[i] as int] == s[o[j] as int]);
    }
}

/// In a ranking of two, the one with the higher score comes first, of equal
/// scores the later one, of equal times the one with the later stamp, and of
/// equal stamps the one with the higher number.
pub proof fn law_ranking_of_two(a: RankKey, b: RankKey)
    ensures
        ({
            let keys = seq![a, b];
            let first = ranking(keys)[0];
            &&& a.score > b.score ==> first == 0
            &&& a.score < b.score ==> first == 1
            &&& a.score == b.score && a.at is Some && (b.at is None || b.at->Some_0 < a.at->Some_0)
                ==> first == 0
            &&& a.score == b.score && b.at is Some && (a.at is None || a.at->Some_0 < b.at->Some_0)
                ==> first == 1
            &&& a.score == b.score && a.at == b.at && a.stamp is Some && (b.stamp is None
                || text::lex_lt(b.stamp->Some_0@, a.stamp->Some_0@)) ==> first == 0
            &&& a.score == b.score && a.at == b.at && a.stamp == b.stamp && a.id > b.id ==> first
                == 0
            &&& a.score == b.score && a.at == b.at && a.stamp == b.stamp && a.id < b.id ==> first
                == 1
        }),
{
    let keys = seq![a, b];
    law_ranking_is_in_order(keys);
    let o = ranking(keys);
    assert(!outranks(keys[o[1] as int], keys[o[0] as int]));
    assert(o[0] < 2 && o[1] < 2 && o[0] != o[1]);
    if a.stamp is Some && b.stamp is Some {
        text::law_dictionary_order(a.stamp->Some_0@, b.stamp->Some_0@, a.stamp->Some_0@);
    }
}

} // verus!
