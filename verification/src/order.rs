//! Stable ordering by a key of two numbers.

use vstd::prelude::*;

verus! {

/// Lexicographic order of two keys.
pub open spec fn key_le(a: (u64, u64), b: (u64, u64)) -> bool {
    a.0 < b.0 || (a.0 == b.0 && a.1 <= b.1)
}

/// The number of positions at the front of `sorted` whose key is at most
/// `key`.
pub open spec fn rank(keys: Seq<(u64, u64)>, sorted: Seq<usize>, key: (u64, u64)) -> nat
    decreases sorted.len(),
{
    if sorted.len() == 0 {
        0
    } else if key_le(keys[sorted.last() as int], key) {
        sorted.len()
    } else {
        rank(keys, sorted.drop_last(), key)
    }
}

/// The positions of `keys` in ascending order of their keys, equal keys in
/// the order in which they stand.
pub open spec fn stable_order(keys: Seq<(u64, u64)>) -> Seq<usize>
    decreases keys.len(),
{
    if keys.len() == 0 {
        Seq::empty()
    } else {
        let before = stable_order(keys.drop_last());
        before.insert(
            rank(keys.drop_last(), before, keys.last()) as int,
            (keys.len() - 1) as usize,
        )
    }
}

/// The items at the given positions.
pub open spec fn pick<A>(items: Seq<A>, positions: Seq<usize>) -> Seq<A> {
    Seq::new(positions.len(), |i: int| items[positions[i] as int])
}

proof fn lemma_rank(keys: Seq<(u64, u64)>, sorted: Seq<usize>, key: (u64, u64))
    ensures
        rank(keys, sorted, key) <= sorted.len(),
        rank(keys, sorted, key) > 0 ==> key_le(
            keys[sorted[rank(keys, sorted, key) - 1] as int],
            key,
        ),
        forall|i: int|
            rank(keys, sorted, key) <= i < sorted.len() ==> !key_le(
                keys[#[trigger] sorted[i] as int],
                key,
            ),
    decreases sorted.len(),
{
    if sorted.len() > 0 && !key_le(keys[sorted.last() as int], key) {
        lemma_rank(keys, sorted.drop_last(), key);
        let r = rank(keys, sorted, key);
        assert forall|i: int| r <= i < sorted.len() implies !key_le(
            keys[#[trigger] sorted[i] as int],
            key,
        ) by {
            if i < sorted.len() - 1 {
                assert(sorted.drop_last()[i] == sorted[i]);
            }
        }
    }
}

/// Every position occurs exactly once in the order; the keys ascend along it;
/// and of two equal keys the one that stood first comes first.
pub proof fn law_stable_order(keys: Seq<(u64, u64)>)
    requires
        keys.len() <= usize::MAX,
    ensures
        stable_order(keys).len() == keys.len(),
        stable_order(keys).no_duplicates(),
        forall|i: int| 0 <= i < keys.len() ==> (#[trigger] stable_order(keys)[i]) < keys.len(),
        forall|x: usize| x < keys.len() ==> #[trigger] stable_order(keys).contains(x),
        forall|i: int, j: int|
            0 <= i < j < keys.len() ==> key_le(
                keys[#[trigger] stable_order(keys)[i] as int],
                keys[#[trigger] stable_order(keys)[j] as int],
            ),
        forall|i: int, j: int|
            0 <= i < j < keys.len() && keys[stable_order(keys)[i] as int] == keys[stable_order(
                keys,
            )[j] as int] ==> (#[trigger] stable_order(keys)[i]) < (#[trigger] stable_order(
                keys,
            )[j]),
    decreases keys.len(),
{
    if keys.len() > 0 {
        let k0 = keys.drop_last();
        let before = stable_order(k0);
        law_stable_order(k0);
        lemma_rank(k0, before, keys.last());
        let r = rank(k0, before, keys.last()) as int;
        let n = (keys.len() - 1) as usize;
        let after = stable_order(keys);
        assert(after == before.insert(r, n));
        before.insert_ensures(r, n);
        assert forall|i: int| 0 <= i < keys.len() implies (#[trigger] after[i]) < keys.len() by {
            if i < r {
                assert(after[i] == before[i]);
            } else if i > r {
                assert(after[i] == before[i - 1]);
            }
        }
        assert forall|x: usize| x < keys.len() implies #[trigger] after.contains(x) by {
            if x == n {
                assert(after[r] == n);
            } else {
                assert(before.contains(x));
                let k = choose|k: int| 0 <= k < before.len() && before[k] == x;
                if k < r {
                    assert(after[k] == x);
                } else {
                    assert(after[k + 1] == x);
                }
            }
        }
        assert forall|i: int, j: int|
            0 <= i < after.len() && 0 <= j < after.len() && i != j implies after[i] != after[j] by {
            let i0 = if i < r {
                i
            } else {
                i - 1
            };
            let j0 = if j < r {
                j
            } else {
                j - 1
            };
            if i != r {
                assert(after[i] == before[i0]);
            }
            if j != r {
                assert(after[j] == before[j0]);
            }
        }
        assert forall|i: int, j: int| 0 <= i < j < keys.len() implies key_le(
            keys[#[trigger] after[i] as int],
            keys[#[trigger] after[j] as int],
        ) && (keys[after[i] as int] == keys[after[j] as int] ==> after[i] < after[j]) by {
            if j < r {
                assert(after[i] == before[i] && after[j] == before[j]);
            } else if j == r {
                assert(after[i] == before[i]);
                if r > 0 && i < r - 1 {
                    assert(key_le(k0[before[i] as int], k0[before[r - 1] as int]));
                }
            } else {
                assert(after[j] == before[j - 1]);
                if i < r {
                    assert(after[i] == before[i]);
                } else if i == r {
                    assert(!key_le(k0[before[j - 1] as int], keys.last()));
                } else {
                    assert(after[i] == before[i - 1]);
                }
            }
        }
    }
}

/// One more key is put behind those that are at most as large, and the order
/// of the others stays.
pub proof fn law_one_more_key(keys: Seq<(u64, u64)>, key: (u64, u64), r: int)
    requires
        keys.len() < usize::MAX,
        r == rank(keys, stable_order(keys), key),
    ensures
        0 <= r <= stable_order(keys).len(),
        stable_order(keys.push(key)) == stable_order(keys).insert(r, keys.len() as usize),
        forall|i: int|
            0 <= i < r ==> key_le(keys[#[trigger] stable_order(keys)[i] as int], key),
        forall|i: int|
            r <= i < stable_order(keys).len() ==> !key_le(
                keys[#[trigger] stable_order(keys)[i] as int],
                key,
            ),
{
    let o = stable_order(keys);
    law_stable_order(keys);
    lemma_rank(keys, o, key);
    assert(keys.push(key).drop_last() =~= keys);
    assert forall|i: int| 0 <= i < r implies key_le(keys[#[trigger] o[i] as int], key) by {
        if i < r - 1 {
            assert(key_le(keys[o[i] as int], keys[o[r - 1] as int]));
        }
    }
}

/// Orders positions by their keys.
pub fn order_by(keys: &Vec<(u64, u64)>) -> (r: Vec<usize>)
    ensures
        r@ == stable_order(keys@),
        r@.len() == keys@.len(),
        forall|i: int| 0 <= i < r@.len() ==> (#[trigger] r@[i]) < keys@.len(),
{
    let mut out: Vec<usize> = Vec::new();
    let mut i: usize = 0;
    while i < keys.len()
        invariant
            i <= keys@.len(),
            out@ == stable_order(keys@.take(i as int)),
            out@.len() == i,
            forall|k: int| 0 <= k < out@.len() ==> (#[trigger] out@[k]) < i,
        decreases keys@.len() - i,
    {
        let key: (u64, u64) = keys[i];
        let mut at: usize = out.len();
        let ghost k0 = keys@.take(i as int);
        assert(out@.take(at as int) == out@);
        while at > 0
            invariant_except_break
                at <= out@.len(),
                i < keys@.len(),
                k0 == keys@.take(i as int),
                key == keys@[i as int],
                forall|k: int| 0 <= k < out@.len() ==> (#[trigger] out@[k]) < i,
                rank(k0, out@, key) == rank(k0, out@.take(at as int), key),
            ensures
                at <= out@.len(),
                at == rank(k0, out@, key),
            decreases at,
        {
            let other: (u64, u64) = keys[out[at - 1]];
            assert(out@.take(at as int).last() == out@[at - 1]);
            assert(out@.take(at as int).drop_last() == out@.take(at - 1));
            if other.0 < key.0 || (other.0 == key.0 && other.1 <= key.1) {
                break;
            }
            at -= 1;
        }
        let ghost before = out@;
        out.insert(at, i);
        proof {
            assert(keys@.take(i + 1).drop_last() == k0);
            before.insert_ensures(at as int, i);
            assert forall|k: int| 0 <= k < out@.len() implies (#[trigger] out@[k]) < i + 1 by {
                if k < at {
                    assert(out@[k] == before[k]);
                } else if k > at {
                    assert(out@[k] == before[k - 1]);
                }
            }
        }
        i += 1;
    }
    assert(keys@.take(i as int) == keys@);
    out
}

} // verus!
