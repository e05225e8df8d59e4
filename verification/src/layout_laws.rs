//! Nobody is lost and nobody is doubled when a team is laid out.

use vstd::prelude::*;

use crate::layout;
use crate::layout::{LayoutConfig, LayoutStep, Drawing, Team, ZoneDef, ZoneView};
use crate::team::{MemberInstance, RoleType};

verus! {

/// `taken` and `left` hold no position twice, and only positions of `queue`.
pub open spec fn splits(queue: Seq<usize>, taken: Seq<usize>, left: Seq<usize>) -> bool {
    &&& (taken + left).no_duplicates()
    &&& forall|x: usize| #[trigger] (taken + left).contains(x) ==> queue.contains(x)
}

/// Every position of `queue` is in `taken` or in `left`.
pub open spec fn covers(queue: Seq<usize>, taken: Seq<usize>, left: Seq<usize>) -> bool {
    forall|x: usize| #[trigger] queue.contains(x) ==> (taken + left).contains(x)
}

/// No two members of `positions` have the same name.
pub open spec fn names_differ(ms: Seq<MemberInstance>, positions: Seq<usize>) -> bool {
    forall|a: int, b: int|
        0 <= a < b < positions.len() ==> ms[#[trigger] positions[a] as int].name@
            != ms[#[trigger] positions[b] as int].name@
}

/// Only positions of `queue`.
pub open spec fn drawn_from(queue: Seq<usize>, positions: Seq<usize>) -> bool {
    forall|k: int| 0 <= k < positions.len() ==> queue.contains(#[trigger] positions[k])
}

proof fn lemma_add_once(ms: Seq<MemberInstance>, queue: Seq<usize>, chosen: Seq<usize>, i: usize)
    requires
        names_differ(ms, chosen),
        drawn_from(queue, chosen),
        queue.contains(i),
    ensures
        names_differ(ms, layout::add_once(ms, chosen, i)),
        drawn_from(queue, layout::add_once(ms, chosen, i)),
{
    let after = layout::add_once(ms, chosen, i);
    if !layout::name_taken(ms, chosen, i) {
        assert forall|a: int, b: int| 0 <= a < b < after.len() implies ms[#[trigger] after[a] as int].name@
            != ms[#[trigger] after[b] as int].name@ by {
            if b == chosen.len() {
                assert(ms[chosen[a] as int].name@ != ms[i as int].name@);
            }
        }
    }
}

proof fn lemma_add_reports(
    ms: Seq<MemberInstance>,
    queue: Seq<usize>,
    part: Seq<usize>,
    boss: usize,
    chosen: Seq<usize>,
)
    requires
        names_differ(ms, chosen),
        drawn_from(queue, chosen),
        drawn_from(queue, part),
    ensures
        names_differ(ms, layout::add_reports(ms, part, boss, chosen)),
        drawn_from(queue, layout::add_reports(ms, part, boss, chosen)),
    decreases part.len(),
{
    if part.len() > 0 {
        assert(queue.contains(part[part.len() - 1]));
        assert(drawn_from(queue, part.drop_last())) by {
            assert forall|k: int| 0 <= k < part.drop_last().len() implies queue.contains(
                #[trigger] part.drop_last()[k],
            ) by {
                assert(queue.contains(part[k]));
            }
        }
        lemma_add_reports(ms, queue, part.drop_last(), boss, chosen);
        lemma_add_once(
            ms,
            queue,
            layout::add_reports(ms, part.drop_last(), boss, chosen),
            part.last(),
        );
    }
}

proof fn lemma_choose_named(
    ms: Seq<MemberInstance>,
    queue: Seq<usize>,
    zone: Seq<char>,
    upto: int,
)
    requires
        0 <= upto <= queue.len(),
    ensures
        names_differ(ms, layout::choose_named(ms, queue, zone, upto)),
        drawn_from(queue, layout::choose_named(ms, queue, zone, upto)),
    decreases upto,
{
    if upto > 0 {
        let before = layout::choose_named(ms, queue, zone, upto - 1);
        let i = queue[upto - 1];
        lemma_choose_named(ms, queue, zone, upto - 1);
        if layout::is_named_by(ms, zone, i) {
            lemma_add_once(ms, queue, before, i);
            if ms[i as int].role_type == RoleType::Manager {
                assert(drawn_from(queue, queue));
                lemma_add_reports(ms, queue, queue, i, layout::add_once(ms, before, i));
            }
        }
    }
}

pub proof fn lemma_filter_no_dup(s: Seq<usize>, p: spec_fn(usize) -> bool)
    requires
        s.no_duplicates(),
    ensures
        s.filter(p).no_duplicates(),
        forall|x: usize| #[trigger] s.filter(p).contains(x) <==> s.contains(x) && p(x),
    decreases s.len(),
{
    reveal(Seq::filter);
    broadcast use vstd::seq_lib::group_seq_properties;

    if s.len() > 0 {
        let t = s.drop_last();
        assert(s == t.push(s.last()));
        lemma_filter_no_dup(t, p);
        assert(!t.contains(s.last())) by {
            if t.contains(s.last()) {
                let k = choose|k: int| 0 <= k < t.len() && t[k] == s.last();
                assert(s[k] == s[s.len() - 1]);
            }
        }
        assert(!t.filter(p).contains(s.last()));
        if p(s.last()) {
            assert(s.filter(p) == t.filter(p).push(s.last()));
        } else {
            assert(s.filter(p) == t.filter(p));
        }
    }
}

proof fn lemma_concat_no_dup(a: Seq<usize>, b: Seq<usize>)
    requires
        a.no_duplicates(),
        b.no_duplicates(),
        forall|x: usize| #[trigger] a.contains(x) ==> !b.contains(x),
    ensures
        (a + b).no_duplicates(),
        forall|x: usize| #[trigger] (a + b).contains(x) <==> a.contains(x) || b.contains(x),
{
    broadcast use vstd::seq_lib::group_seq_properties;

    assert forall|i: int, j: int| 0 <= i < j < (a + b).len() implies (a + b)[i] != (a + b)[j] by {
        if i < a.len() && j >= a.len() {
            assert(a.contains(a[i]));
            assert(b.contains(b[j - a.len()]));
        }
    }
}

proof fn lemma_names_differ_no_dup(ms: Seq<MemberInstance>, s: Seq<usize>)
    requires
        names_differ(ms, s),
    ensures
        s.no_duplicates(),
{
    assert forall|i: int, j: int| 0 <= i < s.len() && 0 <= j < s.len() && i != j implies s[i]
        != s[j] by {
        if i < j {
            assert(ms[s[i] as int].name@ != ms[s[j] as int].name@);
        } else {
            assert(ms[s[j] as int].name@ != ms[s[i] as int].name@);
        }
    }
}

proof fn lemma_take_role(
    ms: Seq<MemberInstance>,
    queue: Seq<usize>,
    role: RoleType,
    limit: Option<u32>,
)
    requires
        queue.no_duplicates(),
    ensures
        splits(
            queue,
            layout::take_role(ms, queue, role, limit).taken,
            layout::take_role(ms, queue, role, limit).left,
        ),
        covers(
            queue,
            layout::take_role(ms, queue, role, limit).taken,
            layout::take_role(ms, queue, role, limit).left,
        ),
    decreases queue.len(),
{
    broadcast use vstd::seq_lib::group_seq_properties;

    if queue.len() > 0 {
        let q = queue.drop_last();
        let x = queue.last();
        assert(queue == q.push(x));
        assert(!q.contains(x)) by {
            if q.contains(x) {
                let k = choose|k: int| 0 <= k < q.len() && q[k] == x;
                assert(queue[k] == queue[queue.len() - 1]);
            }
        }
        lemma_take_role(ms, q, role, limit);
        let before = layout::take_role(ms, q, role, limit);
        let after = layout::take_role(ms, queue, role, limit);
        assert(!(before.taken + before.left).contains(x));
        lemma_insert_into_split(before.taken, before.left, x, after.taken, after.left);
    }
}

proof fn lemma_insert_into_split(
    t: Seq<usize>,
    l: Seq<usize>,
    x: usize,
    t1: Seq<usize>,
    l1: Seq<usize>,
)
    requires
        (t + l).no_duplicates(),
        !(t + l).contains(x),
        (t1 == t.push(x) && l1 == l) || (t1 == t && l1 == l.push(x)),
    ensures
        (t1 + l1).no_duplicates(),
        forall|y: usize| #[trigger] (t1 + l1).contains(y) <==> (t + l).contains(y) || y == x,
{
    broadcast use vstd::seq_lib::group_seq_properties;

    let s = t + l;
    let s1 = t1 + l1;
    assert forall|i: int, j: int| 0 <= i < s1.len() && 0 <= j < s1.len() && i != j implies s1[i]
        != s1[j] by {
        if t1 == t {
            assert(s1 == s.push(x));
            if i < s.len() {
                assert(s.contains(s[i]));
            }
            if j < s.len() {
                assert(s.contains(s[j]));
            }
        } else {
            let n = t.len();
            let i0 = if i < n {
                i
            } else {
                i - 1
            };
            let j0 = if j < n {
                j
            } else {
                j - 1
            };
            if i != n {
                assert(s1[i] == s[i0]);
                assert(s.contains(s[i0]));
            }
            if j != n {
                assert(s1[j] == s[j0]);
                assert(s.contains(s[j0]));
            }
        }
    }
    assert forall|y: usize| #[trigger] s1.contains(y) <==> s.contains(y) || y == x by {
        assert(s1.contains(y) <==> t1.contains(y) || l1.contains(y));
        assert(s.contains(y) <==> t.contains(y) || l.contains(y));
        assert(t.push(x).contains(y) <==> t.contains(y) || y == x);
        assert(l.push(x).contains(y) <==> l.contains(y) || y == x);
    }
}

proof fn lemma_zone_takes(ms: Seq<MemberInstance>, queue: Seq<usize>, zone: ZoneDef)
    requires
        queue.no_duplicates(),
    ensures
        splits(
            queue,
            layout::zone_takes(ms, queue, zone).taken,
            layout::zone_takes(ms, queue, zone).left,
        ),
        names_differ(ms, queue) ==> covers(
            queue,
            layout::zone_takes(ms, queue, zone).taken,
            layout::zone_takes(ms, queue, zone).left,
        ),
{
    broadcast use vstd::seq_lib::group_seq_properties;

    let t = layout::zone_takes(ms, queue, zone);
    if exists|k: int|
        0 <= k < queue.len() && layout::is_named_by(ms, zone.name@, #[trigger] queue[k]) {
        let named = layout::choose_named(ms, queue, zone.name@, queue.len() as int);
        let keep = |i: usize| !layout::name_taken(ms, named, i);
        lemma_choose_named(ms, queue, zone.name@, queue.len() as int);
        lemma_names_differ_no_dup(ms, named);
        lemma_filter_no_dup(queue, keep);
        assert forall|x: usize| #[trigger] named.contains(x) implies !t.left.contains(x) by {
            let k = choose|k: int| 0 <= k < named.len() && named[k] == x;
            assert(ms[named[k] as int].name@ == ms[x as int].name@);
            assert(layout::name_taken(ms, named, x));
            assert(!keep(x));
        }
        lemma_concat_no_dup(named, t.left);
        if names_differ(ms, queue) {
            assert forall|x: usize| #[trigger] queue.contains(x) implies (named + t.left).contains(
                x,
            ) by {
                if layout::name_taken(ms, named, x) {
                    let k = choose|k: int|
                        0 <= k < named.len() && ms[#[trigger] named[k] as int].name@
                            == ms[x as int].name@;
                    assert(queue.contains(named[k]));
                    let a = choose|a: int| 0 <= a < queue.len() && queue[a] == named[k];
                    let b = choose|b: int| 0 <= b < queue.len() && queue[b] == x;
                    if a < b {
                        assert(ms[queue[a] as int].name@ != ms[queue[b] as int].name@);
                    } else if b < a {
                        assert(ms[queue[b] as int].name@ != ms[queue[a] as int].name@);
                    }
                    assert(named.contains(x));
                } else {
                    assert(keep(x));
                }
            }
        }
    } else {
        match layout::zone_role(zone.name@) {
            Some(role) => lemma_take_role(ms, queue, role, layout::zone_limit(zone)),
            None => {
                assert(t.taken + t.left == queue);
            },
        }
    }
}

/// The members of all zones, zone after zone.
pub open spec fn placed(zones: Seq<ZoneView>) -> Seq<usize>
    decreases zones.len(),
{
    if zones.len() == 0 {
        Seq::empty()
    } else {
        placed(zones.drop_last()) + zones.last().members
    }
}

proof fn lemma_fill_zones(ms: Seq<MemberInstance>, queue: Seq<usize>, zones: Seq<ZoneDef>)
    requires
        queue.no_duplicates(),
    ensures
        splits(
            queue,
            placed(layout::fill_zones(ms, queue, zones).0),
            layout::fill_zones(ms, queue, zones).1,
        ),
        names_differ(ms, queue) ==> covers(
            queue,
            placed(layout::fill_zones(ms, queue, zones).0),
            layout::fill_zones(ms, queue, zones).1,
        ),
        layout::fill_zones(ms, queue, zones).0.len() == zones.len(),
        names_differ(ms, queue) ==> names_differ(ms, layout::fill_zones(ms, queue, zones).1),
    decreases zones.len(),
{
    broadcast use vstd::seq_lib::group_seq_properties;

    if zones.len() == 0 {
        assert(Seq::<usize>::empty() + queue == queue);
    } else {
        lemma_fill_zones(ms, queue, zones.drop_last());
        let (before, left) = layout::fill_zones(ms, queue, zones.drop_last());
        let (after, rest) = layout::fill_zones(ms, queue, zones);
        let p = placed(before);
        assert(left.no_duplicates()) by {
            assert forall|i: int, j: int|
                0 <= i < left.len() && 0 <= j < left.len() && i != j implies left[i] != left[j] by {
                assert((p + left)[p.len() + i] == left[i]);
                assert((p + left)[p.len() + j] == left[j]);
            }
        }
        assert(p.no_duplicates()) by {
            assert forall|i: int, j: int|
                0 <= i < p.len() && 0 <= j < p.len() && i != j implies p[i] != p[j] by {
                assert((p + left)[i] == p[i]);
                assert((p + left)[j] == p[j]);
            }
        }
        lemma_zone_takes(ms, left, zones.last());
        let t = layout::zone_takes(ms, left, zones.last());
        assert(after.drop_last() == before);
        assert(placed(after) == p + t.taken);
        assert(p + t.taken + t.left == p + (t.taken + t.left));
        assert forall|x: usize| #[trigger] p.contains(x) implies !(t.taken + t.left).contains(
            x,
        ) by {
            if (t.taken + t.left).contains(x) {
                assert(left.contains(x));
                let a = choose|a: int| 0 <= a < p.len() && p[a] == x;
                let b = choose|b: int| 0 <= b < left.len() && left[b] == x;
                assert((p + left)[a] == (p + left)[p.len() + b]);
            }
        }
        lemma_concat_no_dup(p, t.taken + t.left);
        assert forall|x: usize| #[trigger] (p + t.taken + t.left).contains(x) implies queue.contains(
            x,
        ) by {
            if p.contains(x) {
                assert((p + left).contains(x));
            } else {
                assert(left.contains(x));
                assert((p + left).contains(x));
            }
        }
        if names_differ(ms, queue) {
            assert forall|x: usize| #[trigger] queue.contains(x) implies (p + t.taken
                + t.left).contains(x) by {
                assert((p + left).contains(x));
                if !p.contains(x) {
                    assert(left.contains(x));
                    assert((t.taken + t.left).contains(x));
                }
            }
            assert forall|a: int, b: int| 0 <= a < b < t.left.len() implies ms[#[trigger] t.left[a] as int].name@
                != ms[#[trigger] t.left[b] as int].name@ by {
                assert((t.taken + t.left).contains(t.left[a])) by {
                    assert((t.taken + t.left)[t.taken.len() + a] == t.left[a]);
                }
                assert((t.taken + t.left).contains(t.left[b])) by {
                    assert((t.taken + t.left)[t.taken.len() + b] == t.left[b]);
                }
                let i = choose|i: int| 0 <= i < left.len() && left[i] == t.left[a];
                let j = choose|j: int| 0 <= j < left.len() && left[j] == t.left[b];
                assert((t.taken + t.left)[t.taken.len() + a] != (t.taken + t.left)[t.taken.len()
                    + b]);
                if i < j {
                    assert(ms[left[i] as int].name@ != ms[left[j] as int].name@);
                } else {
                    assert(ms[left[j] as int].name@ != ms[left[i] as int].name@);
                }
            }
        }
    }
}

proof fn lemma_placed_filter(zones: Seq<ZoneView>)
    ensures
        placed(zones.filter(|z: ZoneView| layout::is_inhabited(z))) == placed(zones),
    decreases zones.len(),
{
    reveal(Seq::filter);
    let keep = |z: ZoneView| layout::is_inhabited(z);
    if zones.len() > 0 {
        lemma_placed_filter(zones.drop_last());
        let f = zones.drop_last().filter(keep);
        if layout::is_inhabited(zones.last()) {
            assert(zones.filter(keep) == f.push(zones.last()));
            assert(f.push(zones.last()).drop_last() == f);
        } else {
            assert(zones.filter(keep) == f);
            assert(zones.last().members == Seq::<usize>::empty());
            assert(placed(zones.drop_last()) + zones.last().members == placed(zones.drop_last()));
        }
    }
}

proof fn lemma_placed_from_config(ms: Seq<MemberInstance>, zones: Seq<ZoneDef>)
    requires
        ms.len() <= usize::MAX,
    ensures
        placed(layout::zones_from_config(ms, zones)).no_duplicates(),
        forall|x: usize| #[trigger]
            placed(layout::zones_from_config(ms, zones)).contains(x) ==> x < ms.len(),
        zones.len() > 0 && names_differ(ms, layout::everyone(ms.len())) ==> forall|x: usize|
            x < ms.len() ==> #[trigger] placed(layout::zones_from_config(ms, zones)).contains(x),
{
    broadcast use vstd::seq_lib::group_seq_properties;

    let all = layout::everyone(ms.len());
    assert(all.no_duplicates());
    assert forall|x: usize| #[trigger] all.contains(x) <==> x < ms.len() by {
        if x < ms.len() {
            assert(all[x as int] == x);
        }
    }
    lemma_fill_zones(ms, all, zones);
    let (filled, left) = layout::fill_zones(ms, all, zones);
    let full = layout::with_rest(filled, left);
    lemma_placed_filter(full);
    let p = placed(filled);
    if zones.len() > 0 {
        assert(full.drop_last() == filled.drop_last());
        assert(placed(full) == p + left) by {
            assert(placed(filled.drop_last()) + (filled.last().members + left) == placed(
                filled.drop_last(),
            ) + filled.last().members + left);
        }
        if names_differ(ms, all) {
            assert forall|x: usize| x < ms.len() implies #[trigger] placed(
                layout::zones_from_config(ms, zones),
            ).contains(x) by {
                assert(all.contains(x));
            }
        }
    } else {
        assert(placed(full) == Seq::<usize>::empty());
    }
}

/// With at least one configured zone, and no two members of one name, every
/// member is in exactly one zone.
pub proof fn law_configured_zones_place_everybody_once(ms: Seq<MemberInstance>, zones: Seq<ZoneDef>)
    requires
        ms.len() <= usize::MAX,
        zones.len() > 0,
        names_differ(ms, layout::everyone(ms.len())),
    ensures
        placed(layout::zones_from_config(ms, zones)).no_duplicates(),
        forall|x: usize| #[trigger]
            placed(layout::zones_from_config(ms, zones)).contains(x) <==> x < ms.len(),
{
    lemma_placed_from_config(ms, zones);
}

/// No zone is empty.
pub proof fn law_no_configured_zone_is_empty(ms: Seq<MemberInstance>, zones: Seq<ZoneDef>, k: int)
    requires
        0 <= k < layout::zones_from_config(ms, zones).len(),
    ensures
        layout::zones_from_config(ms, zones)[k].members.len() > 0,
{
    let (filled, left) = layout::fill_zones(ms, layout::everyone(ms.len()), zones);
    layout::with_rest(filled, left).lemma_filter_pred(|z: ZoneView| layout::is_inhabited(z), k);
}

proof fn lemma_of_role(ms: Seq<MemberInstance>, role: RoleType)
    requires
        ms.len() <= usize::MAX,
    ensures
        layout::of_role(ms, role).no_duplicates(),
        forall|x: usize| #[trigger]
            layout::of_role(ms, role).contains(x) <==> x < ms.len() && ms[x as int].role_type
                == role,
{
    let all = layout::everyone(ms.len());
    let p = |i: usize| ms[i as int].role_type == role;
    assert(all.no_duplicates());
    lemma_filter_no_dup(all, p);
    assert forall|x: usize| #[trigger] all.contains(x) <==> x < ms.len() by {
        if x < ms.len() {
            assert(all[x as int] == x);
        }
    }
}

/// Without a configuration every member who has a pane is in exactly one
/// zone.
pub proof fn law_role_zones_place_everybody_once(ms: Seq<MemberInstance>)
    requires
        ms.len() <= usize::MAX,
    ensures
        placed(layout::zones_by_role(ms)).no_duplicates(),
        forall|x: usize| #[trigger]
            placed(layout::zones_by_role(ms)).contains(x) <==> x < ms.len() && ms[x as int].role_type
                != RoleType::User,
{
    broadcast use vstd::seq_lib::group_seq_properties;

    let a = layout::of_role(ms, RoleType::Architect);
    let m = layout::of_role(ms, RoleType::Manager);
    let e = layout::of_role(ms, RoleType::Engineer);
    lemma_of_role(ms, RoleType::Architect);
    lemma_of_role(ms, RoleType::Manager);
    lemma_of_role(ms, RoleType::Engineer);
    let za = layout::role_zone(ms, RoleType::Architect, 10);
    let zm = layout::role_zone(ms, RoleType::Manager, 15);
    let ze = layout::role_zone(ms, RoleType::Engineer, 20);
    lemma_placed_role(za, a);
    lemma_placed_role(zm, m);
    lemma_placed_role(ze, e);
    lemma_placed_concat(za, zm);
    lemma_placed_concat(za + zm, ze);
    lemma_concat_no_dup(a, m);
    lemma_concat_no_dup(a + m, e);
}

proof fn lemma_placed_role(zones: Seq<ZoneView>, members: Seq<usize>)
    requires
        (members.len() == 0 && zones.len() == 0) || (zones.len() == 1 && zones[0].members
            == members),
    ensures
        placed(zones) == members,
{
    if zones.len() == 1 {
        assert(placed(zones.drop_last()) == Seq::<usize>::empty());
        assert(Seq::<usize>::empty() + members == members);
    } else {
        assert(members == Seq::<usize>::empty());
    }
}

proof fn lemma_placed_concat(x: Seq<ZoneView>, y: Seq<ZoneView>)
    ensures
        placed(x + y) == placed(x) + placed(y),
    decreases y.len(),
{
    if y.len() == 0 {
        assert(x + y == x);
        assert(placed(x) + Seq::<usize>::empty() == placed(x));
    } else {
        lemma_placed_concat(x, y.drop_last());
        assert((x + y).drop_last() == x + y.drop_last());
        assert(placed(x) + (placed(y.drop_last()) + y.last().members) == placed(x) + placed(
            y.drop_last(),
        ) + y.last().members);
    }
}

// ---------------------------------------------------------------------------
// Groups

/// The members of all groups, group after group.
pub open spec fn flat(groups: Seq<Seq<usize>>) -> Seq<usize>
    decreases groups.len(),
{
    if groups.len() == 0 {
        Seq::empty()
    } else {
        flat(groups.drop_last()) + groups.last()
    }
}

/// No group is empty.
pub open spec fn all_filled(groups: Seq<Seq<usize>>) -> bool {
    forall|k: int| 0 <= k < groups.len() ==> (#[trigger] groups[k]).len() > 0
}

proof fn lemma_columns_upto(members: Seq<usize>, desired: nat, k: int)
    requires
        members.len() > 0,
        0 <= k <= layout::columns_of(members, desired).len(),
    ensures
        flat(layout::columns_of(members, desired).take(k)) == members.take(
            layout::column_start(
                members.len(),
                layout::column_count(members.len(), desired),
                k as nat,
            ) as int,
        ),
    decreases k,
{
    let all = layout::columns_of(members, desired);
    let c = layout::column_count(members.len(), desired);
    if k > 0 {
        lemma_columns_upto(members, desired, k - 1);
        layout::lemma_column_step(members.len(), c, (k - 1) as nat);
        assert(all.take(k).drop_last() == all.take(k - 1));
        assert(all.take(k).last() == all[k - 1]);
        let s = layout::column_start(members.len(), c, (k - 1) as nat) as int;
        let e = layout::column_start(members.len(), c, k as nat) as int;
        assert(members.take(s) + members.subrange(s, e) == members.take(e));
    } else {
        layout::lemma_column_step(members.len(), c, 0);
        assert(members.take(0) == Seq::<usize>::empty());
    }
}

/// Columns keep the members in order, and no column is empty.
pub proof fn law_columns_keep_the_order(members: Seq<usize>, desired: nat)
    requires
        members.len() > 0,
    ensures
        flat(layout::columns_of(members, desired)) == members,
        all_filled(layout::columns_of(members, desired)),
        layout::columns_of(members, desired).len() > 0,
{
    let all = layout::columns_of(members, desired);
    let n = members.len();
    let c = layout::column_count(n, desired);
    lemma_columns_upto(members, desired, all.len() as int);
    layout::lemma_column_step(n, c, 0);
    assert(all.take(all.len() as int) == all);
    assert(members.take(n as int) == members);
    assert forall|k: int| 0 <= k < all.len() implies (#[trigger] all[k]).len() > 0 by {
        layout::lemma_column_step(n, c, k as nat);
        let q = n / c;
        assert(q >= 1) by (nonlinear_arith)
            requires
                q == n / c,
                1 <= c <= n,
        ;
        assert((k + 1) * q == k * q + q) by (nonlinear_arith);
    }
}

/// The lengths of two columns differ by one member at most.
pub proof fn law_columns_are_balanced(members: Seq<usize>, desired: nat, i: int, j: int)
    requires
        members.len() > 0,
        0 <= i < layout::columns_of(members, desired).len(),
        0 <= j < layout::columns_of(members, desired).len(),
    ensures
        layout::columns_of(members, desired)[i].len() <= layout::columns_of(
            members,
            desired,
        )[j].len() + 1,
{
    let n = members.len();
    let c = layout::column_count(n, desired);
    layout::lemma_column_step(n, c, i as nat);
    layout::lemma_column_step(n, c, j as nat);
    let q = n / c;
    assert((i + 1) * q == i * q + q) by (nonlinear_arith);
    assert((j + 1) * q == j * q + q) by (nonlinear_arith);
}

proof fn lemma_flat_update(groups: Seq<Seq<usize>>, i: int, x: usize)
    requires
        0 <= i < groups.len(),
    ensures
        flat(groups.update(i, groups[i].push(x))).to_multiset() == flat(
            groups,
        ).to_multiset().insert(x),
    decreases groups.len(),
{
    broadcast use vstd::seq_lib::group_to_multiset_ensures;
    broadcast use vstd::multiset::group_multiset_axioms;

    let after = groups.update(i, groups[i].push(x));
    let front = flat(groups.drop_last());
    vstd::seq_lib::lemma_multiset_commutative(front, groups.last());
    vstd::seq_lib::lemma_multiset_commutative(flat(after.drop_last()), after.last());
    if i == groups.len() - 1 {
        assert(after.drop_last() == groups.drop_last());
    } else {
        assert(after.drop_last() == groups.drop_last().update(i, groups.drop_last()[i].push(x)));
        lemma_flat_update(groups.drop_last(), i, x);
        assert(after.last() == groups.last());
    }
    assert(flat(after).to_multiset() =~= flat(groups).to_multiset().insert(x));
}

/// The groups of teams.
pub open spec fn team_groups(teams: Seq<Team>) -> Seq<Seq<usize>> {
    Seq::new(teams.len(), |i: int| teams[i].members)
}

proof fn lemma_teams(ms: Seq<MemberInstance>, members: Seq<usize>)
    ensures
        flat(team_groups(layout::teams_of(ms, members))).to_multiset() == members.to_multiset(),
        all_filled(team_groups(layout::teams_of(ms, members))),
        members.len() > 0 ==> layout::teams_of(ms, members).len() > 0,
    decreases members.len(),
{
    broadcast use vstd::seq_lib::group_to_multiset_ensures;
    broadcast use vstd::multiset::group_multiset_axioms;

    if members.len() > 0 {
        let x = members.last();
        let before = layout::teams_of(ms, members.drop_last());
        let after = layout::teams_of(ms, members);
        lemma_teams(ms, members.drop_last());
        assert(members == members.drop_last().push(x));
        let boss = layout::boss_of(ms, x);
        layout::lemma_team_index_boss(before, boss);
        match layout::team_index(before, boss) {
            Some(i) => {
                lemma_flat_update(team_groups(before), i, x);
                assert(team_groups(after) == team_groups(before).update(
                    i,
                    team_groups(before)[i].push(x),
                ));
            },
            None => {
                assert(team_groups(after) == team_groups(before).push(seq![x]));
                assert(team_groups(after).drop_last() == team_groups(before));
                assert(flat(team_groups(after)) == flat(team_groups(before)).push(x));
            },
        }
    }
}

pub proof fn lemma_zone_groups(ms: Seq<MemberInstance>, zone: ZoneView)
    requires
        zone.members.len() > 0,
    ensures
        flat(layout::zone_groups(ms, zone)).to_multiset() == zone.members.to_multiset(),
        flat(layout::zone_groups(ms, zone)).len() == zone.members.len(),
        all_filled(layout::zone_groups(ms, zone)),
        layout::zone_groups(ms, zone).len() > 0,
{
    broadcast use vstd::seq_lib::group_to_multiset_ensures;

    let sub = layout::subgroups(ms, zone.members);
    if sub.len() == 1 {
        law_columns_keep_the_order(zone.members, zone.horizontal_columns as nat);
    } else {
        lemma_teams(ms, zone.members);
        assert(sub == team_groups(layout::teams_of(ms, zone.members)));
        assert(flat(sub).len() == flat(sub).to_multiset().len());
        assert(zone.members.len() == zone.members.to_multiset().len());
    }
}

proof fn lemma_flat_front(groups: Seq<Seq<usize>>)
    requires
        groups.len() > 0,
    ensures
        flat(groups).len() == groups[0].len() + flat(groups.skip(1)).len(),
    decreases groups.len(),
{
    if groups.len() > 1 {
        lemma_flat_front(groups.drop_last());
        assert(groups.drop_last().skip(1) == groups.skip(1).drop_last());
        assert(groups.skip(1).last() == groups.last());
    } else {
        assert(groups.skip(1) == Seq::<Seq<usize>>::empty());
        assert(groups.drop_last() == Seq::<Seq<usize>>::empty());
    }
}

proof fn lemma_group_len(groups: Seq<Seq<usize>>, k: int)
    requires
        0 <= k < groups.len(),
    ensures
        groups[k].len() <= flat(groups).len(),
    decreases groups.len(),
{
    if k < groups.len() - 1 {
        lemma_group_len(groups.drop_last(), k);
    }
}

/// The weights of groups add up to the number of their members.
pub proof fn lemma_sizes(groups: Seq<Seq<usize>>)
    requires
        flat(groups).len() <= u32::MAX,
    ensures
        layout::weight_sum(layout::sizes(groups)) == flat(groups).len(),
        forall|k: int| 0 <= k < groups.len() ==> (#[trigger] groups[k]).len() <= flat(groups).len(),
    decreases groups.len(),
{
    assert forall|k: int| 0 <= k < groups.len() implies (#[trigger] groups[k]).len() <= flat(
        groups,
    ).len() by {
        lemma_group_len(groups, k);
    }
    if groups.len() > 0 {
        lemma_flat_front(groups);
        lemma_sizes(groups.skip(1));
        assert(layout::sizes(groups).skip(1) == layout::sizes(groups.skip(1)));
        assert(groups[0].len() <= flat(groups).len());
    }
}

/// What a drawing routine may rely on for a zone.
pub proof fn lemma_zone_is_drawable(ms: Seq<MemberInstance>, zone: ZoneView)
    requires
        0 < zone.members.len() <= layout::MAX_MEMBERS,
    ensures
        layout::zone_groups(ms, zone).len() > 0,
        all_filled(layout::zone_groups(ms, zone)),
        layout::weight_sum(layout::sizes(layout::zone_groups(ms, zone))) <= u32::MAX,
        forall|k: int|
            0 <= k < layout::zone_groups(ms, zone).len() ==> (#[trigger] layout::zone_groups(
                ms,
                zone,
            )[k]).len() <= layout::MAX_MEMBERS,
{
    lemma_zone_groups(ms, zone);
    lemma_sizes(layout::zone_groups(ms, zone));
}

proof fn lemma_zone_in_placed(zones: Seq<ZoneView>, k: int)
    requires
        0 <= k < zones.len(),
    ensures
        zones[k].members.len() <= placed(zones).len(),
        forall|i: int|
            0 <= i < zones[k].members.len() ==> placed(zones).contains(
                #[trigger] zones[k].members[i],
            ),
    decreases zones.len(),
{
    let front = placed(zones.drop_last());
    let last = zones.last().members;
    if k < zones.len() - 1 {
        lemma_zone_in_placed(zones.drop_last(), k);
        assert forall|i: int| 0 <= i < zones[k].members.len() implies placed(zones).contains(
            #[trigger] zones[k].members[i],
        ) by {
            let x = zones.drop_last()[k].members[i];
            assert(front.contains(x));
            let j = choose|j: int| 0 <= j < front.len() && front[j] == x;
            assert((front + last)[j] == x);
        }
    } else {
        assert forall|i: int| 0 <= i < zones[k].members.len() implies placed(zones).contains(
            #[trigger] zones[k].members[i],
        ) by {
            assert((front + last)[front.len() + i] == last[i]);
        }
    }
}

/// The zones of a team hold no more positions than there are, each once.
pub proof fn lemma_placed_in_team(ms: Seq<MemberInstance>, config: Option<LayoutConfig>)
    requires
        ms.len() <= usize::MAX,
    ensures
        placed(layout::team_zones(ms, config)).no_duplicates(),
        placed(layout::team_zones(ms, config)).len() <= ms.len(),
        forall|x: usize| #[trigger]
            placed(layout::team_zones(ms, config)).contains(x) ==> x < ms.len(),
{
    let zones = layout::team_zones(ms, config);
    match config {
        Some(c) => lemma_placed_from_config(ms, c.zones@),
        None => law_role_zones_place_everybody_once(ms),
    }
    let p = placed(zones);
    p.unique_seq_to_set();
    let all = layout::everyone(ms.len());
    assert(p.to_set().subset_of(all.to_set())) by {
        assert forall|x: usize| p.to_set().contains(x) implies all.to_set().contains(x) by {
            assert(p.contains(x));
            assert(all[x as int] == x);
        }
    }
    vstd::seq_lib::seq_to_set_is_finite(all);
    vstd::set_lib::lemma_len_subset(p.to_set(), all.to_set());
    all.lemma_cardinality_of_set();
}

/// Every zone of a team holds positions of the team, and no more than there
/// are.
pub proof fn lemma_team_zones(ms: Seq<MemberInstance>, config: Option<LayoutConfig>)
    requires
        ms.len() <= usize::MAX,
    ensures
        forall|k: int|
            0 <= k < layout::team_zones(ms, config).len() ==> (#[trigger] layout::team_zones(
                ms,
                config,
            )[k]).members.len() <= ms.len() && layout::in_range(
                layout::team_zones(ms, config)[k].members,
                ms.len(),
            ),
{
    let zones = layout::team_zones(ms, config);
    lemma_placed_in_team(ms, config);
    let p = placed(zones);
    assert forall|k: int| 0 <= k < zones.len() implies (#[trigger] zones[k]).members.len()
        <= ms.len() && layout::in_range(zones[k].members, ms.len()) by {
        lemma_zone_in_placed(zones, k);
        assert forall|i: int| 0 <= i < zones[k].members.len() implies (
        #[trigger] zones[k].members[i]) < ms.len() by {
            assert(p.contains(zones[k].members[i]));
        }
    }
}

// ---------------------------------------------------------------------------
// Seats

/// The members that are given a pane, in the order in which they get it.
pub open spec fn seated(steps: Seq<LayoutStep>) -> Seq<usize>
    decreases steps.len(),
{
    if steps.len() == 0 {
        Seq::empty()
    } else {
        match steps.last() {
            LayoutStep::Seat { member, .. } => seated(steps.drop_last()).push(member),
            _ => seated(steps.drop_last()),
        }
    }
}

proof fn lemma_seated_push(steps: Seq<LayoutStep>, step: LayoutStep)
    ensures
        seated(steps.push(step)) == (match step {
            LayoutStep::Seat { member, .. } => seated(steps).push(member),
            _ => seated(steps),
        }),
{
    assert(steps.push(step).drop_last() == steps);
}

proof fn lemma_columns_seat_nobody(d: Drawing, first: nat, weights: Seq<u32>, upto: int)
    ensures
        seated(layout::draw_columns(d, first, weights, upto).steps) == seated(d.steps),
    decreases upto,
{
    if upto > 1 {
        lemma_columns_seat_nobody(d, first, weights, upto - 1);
        let before = layout::draw_columns(d, first, weights, upto - 1);
        let after = layout::draw_columns(d, first, weights, upto);
        lemma_seated_push(before.steps, after.steps.last());
        assert(after.steps == before.steps.push(after.steps.last()));
    }
}

proof fn lemma_stack_above_seats(d: Drawing, pane: nat, members: Seq<usize>, from: int)
    requires
        1 <= from,
    ensures
        seated(layout::draw_stack_above(d, pane, members, from).steps).to_multiset() == seated(
            d.steps,
        ).to_multiset().add(
            members.skip(
                if from < members.len() {
                    from
                } else {
                    members.len() as int
                },
            ).to_multiset(),
        ),
    decreases members.len() - from,
{
    broadcast use vstd::seq_lib::group_to_multiset_ensures;
    broadcast use vstd::multiset::group_multiset_axioms;

    if from >= members.len() {
        assert(members.skip(members.len() as int) == Seq::<usize>::empty());
        assert(seated(d.steps).to_multiset() =~= seated(d.steps).to_multiset().add(
            Seq::<usize>::empty().to_multiset(),
        ));
    } else {
        lemma_stack_above_seats(d, pane, members, from + 1);
        let before = layout::draw_stack_above(d, pane, members, from + 1);
        let split = LayoutStep::SplitDown {
            from: pane as usize,
            pct: layout::stack_pct((from + 1) as nat),
        };
        let seat = LayoutStep::Seat { pane: (before.last + 1) as usize, member: members[from] };
        lemma_seated_push(before.steps, split);
        lemma_seated_push(before.steps.push(split), seat);
        let rest = members.skip(from + 1);
        assert(members.skip(from) == seq![members[from]] + rest);
        vstd::seq_lib::lemma_multiset_commutative(seq![members[from]], rest);
        assert(seq![members[from]] == Seq::<usize>::empty().push(members[from]));
        assert(members.skip(from).to_multiset() =~= rest.to_multiset().insert(members[from]));
        if from + 1 >= members.len() {
            assert(rest == members.skip(members.len() as int));
        }
        assert(seated(layout::draw_stack_above(d, pane, members, from).steps).to_multiset()
            =~= seated(d.steps).to_multiset().add(members.skip(from).to_multiset()));
    }
}

proof fn lemma_stack_seats(d: Drawing, pane: nat, members: Seq<usize>)
    requires
        members.len() > 0,
    ensures
        seated(layout::draw_stack(d, pane, members).steps).to_multiset() == seated(
            d.steps,
        ).to_multiset().add(members.to_multiset()),
{
    broadcast use vstd::seq_lib::group_to_multiset_ensures;
    broadcast use vstd::multiset::group_multiset_axioms;

    lemma_stack_above_seats(d, pane, members, 1);
    let above = layout::draw_stack_above(d, pane, members, 1);
    let even = LayoutStep::EvenOut { pane: pane as usize };
    let seat = LayoutStep::Seat { pane: pane as usize, member: members[0] };
    lemma_seated_push(above.steps, even);
    lemma_seated_push(above.steps.push(even), seat);
    let rest = members.skip(1);
    assert(members == seq![members[0]] + rest);
    vstd::seq_lib::lemma_multiset_commutative(seq![members[0]], rest);
    assert(seq![members[0]] == Seq::<usize>::empty().push(members[0]));
    assert(members.to_multiset() =~= rest.to_multiset().insert(members[0]));
    assert(seated(layout::draw_stack(d, pane, members).steps).to_multiset() =~= seated(
        d.steps,
    ).to_multiset().add(members.to_multiset()));
}

proof fn lemma_groups_seats(
    d: Drawing,
    first: nat,
    last: nat,
    groups: Seq<Seq<usize>>,
    upto: int,
)
    requires
        all_filled(groups),
        0 <= upto <= groups.len(),
    ensures
        seated(layout::draw_groups(d, first, last, groups, upto).steps).to_multiset() == seated(
            d.steps,
        ).to_multiset().add(flat(groups.take(upto)).to_multiset()),
    decreases upto,
{
    broadcast use vstd::seq_lib::group_to_multiset_ensures;
    broadcast use vstd::multiset::group_multiset_axioms;

    if upto == 0 {
        assert(groups.take(0) == Seq::<Seq<usize>>::empty());
        assert(seated(d.steps).to_multiset() =~= seated(d.steps).to_multiset().add(
            Seq::<usize>::empty().to_multiset(),
        ));
    } else {
        lemma_groups_seats(d, first, last, groups, upto - 1);
        let before = layout::draw_groups(d, first, last, groups, upto - 1);
        lemma_stack_seats(before, layout::column_pane(first, last, upto - 1), groups[upto - 1]);
        assert(groups.take(upto).drop_last() == groups.take(upto - 1));
        vstd::seq_lib::lemma_multiset_commutative(flat(groups.take(upto - 1)), groups[upto - 1]);
        assert(seated(layout::draw_groups(d, first, last, groups, upto).steps).to_multiset()
            =~= seated(d.steps).to_multiset().add(flat(groups.take(upto)).to_multiset()));
    }
}

pub proof fn lemma_zone_seats(ms: Seq<MemberInstance>, d: Drawing, pane: nat, zone: ZoneView)
    ensures
        seated(layout::draw_zone(ms, d, pane, zone).steps).to_multiset() == seated(
            d.steps,
        ).to_multiset().add(zone.members.to_multiset()),
{
    broadcast use vstd::multiset::group_multiset_axioms;

    if zone.members.len() == 0 {
        assert(zone.members == Seq::<usize>::empty());
        broadcast use vstd::seq_lib::group_to_multiset_ensures;

        assert(seated(d.steps).to_multiset() =~= seated(d.steps).to_multiset().add(
            zone.members.to_multiset(),
        ));
    } else {
        let groups = layout::zone_groups(ms, zone);
        lemma_zone_groups(ms, zone);
        lemma_columns_seat_nobody(d, pane, layout::sizes(groups), groups.len() as int);
        let split = layout::draw_columns(d, pane, layout::sizes(groups), groups.len() as int);
        lemma_groups_seats(split, pane, d.last, groups, groups.len() as int);
        assert(groups.take(groups.len() as int) == groups);
    }
}

proof fn lemma_zones_seats(
    ms: Seq<MemberInstance>,
    d: Drawing,
    zones: Seq<ZoneView>,
    upto: int,
)
    requires
        0 <= upto <= zones.len(),
    ensures
        seated(layout::draw_zones(ms, d, zones, upto).steps).to_multiset() == seated(
            d.steps,
        ).to_multiset().add(placed(zones.take(upto)).to_multiset()),
    decreases upto,
{
    broadcast use vstd::seq_lib::group_to_multiset_ensures;
    broadcast use vstd::multiset::group_multiset_axioms;

    if upto == 0 {
        assert(zones.take(0) == Seq::<ZoneView>::empty());
        assert(seated(d.steps).to_multiset() =~= seated(d.steps).to_multiset().add(
            Seq::<usize>::empty().to_multiset(),
        ));
    } else {
        lemma_zones_seats(ms, d, zones, upto - 1);
        let before = layout::draw_zones(ms, d, zones, upto - 1);
        lemma_zone_seats(ms, before, layout::column_pane(0, 0, upto - 1), zones[upto - 1]);
        assert(zones.take(upto).drop_last() == zones.take(upto - 1));
        vstd::seq_lib::lemma_multiset_commutative(
            placed(zones.take(upto - 1)),
            zones[upto - 1].members,
        );
        assert(seated(layout::draw_zones(ms, d, zones, upto).steps).to_multiset() =~= seated(
            d.steps,
        ).to_multiset().add(placed(zones.take(upto)).to_multiset()));
    }
}

/// The layout of a team gives a pane to exactly those members who are in a
/// zone, once for each time they are.
pub proof fn law_layout_seats_whoever_is_placed(
    ms: Seq<MemberInstance>,
    config: Option<LayoutConfig>,
)
    requires
        ms.len() != 1,
    ensures
        seated(layout::team_steps(ms, config)).to_multiset() == placed(
            layout::team_zones(ms, config),
        ).to_multiset(),
{
    broadcast use vstd::seq_lib::group_to_multiset_ensures;
    broadcast use vstd::multiset::group_multiset_axioms;

    let zones = layout::team_zones(ms, config);
    let start = layout::draw_columns(
        layout::blank(),
        0,
        layout::widths(zones),
        zones.len() as int,
    );
    lemma_columns_seat_nobody(layout::blank(), 0, layout::widths(zones), zones.len() as int);
    assert(seated(layout::blank().steps) == Seq::<usize>::empty());
    lemma_zones_seats(ms, start, zones, zones.len() as int);
    assert(zones.take(zones.len() as int) == zones);
    assert(seated(layout::team_steps(ms, config)).to_multiset() =~= placed(zones).to_multiset());
}

/// The layout of a team gives a pane to every member, once, whether there is
/// one or there are more. Where zones are configured for more than one, there
/// is a zone and no two members have one name.
pub proof fn law_layout_seats_everybody_once(
    ms: Seq<MemberInstance>,
    config: Option<LayoutConfig>,
)
    requires
        ms.len() <= usize::MAX,
        forall|i: int| 0 <= i < ms.len() ==> layout::has_pane(#[trigger] ms[i]),
        config matches Some(c) ==> ms.len() == 1 || (c.zones@.len() > 0 && names_differ(
            ms,
            layout::everyone(ms.len()),
        )),
    ensures
        seated(layout::team_steps(ms, config)).no_duplicates(),
        forall|x: usize| #[trigger]
            seated(layout::team_steps(ms, config)).contains(x) <==> x < ms.len(),
{
    broadcast use vstd::seq_lib::group_to_multiset_ensures;

    let steps = layout::team_steps(ms, config);
    if ms.len() == 1 {
        let seat = LayoutStep::Seat { pane: 0, member: 0 };
        assert(steps == Seq::<LayoutStep>::empty().push(seat));
        lemma_seated_push(Seq::empty(), seat);
        assert(seated(Seq::empty()) == Seq::<usize>::empty());
        assert(seated(steps)[0] == 0);
    } else {
        law_layout_seats_whoever_is_placed(ms, config);
        let p = placed(layout::team_zones(ms, config));
        match config {
            Some(c) => law_configured_zones_place_everybody_once(ms, c.zones@),
            None => law_role_zones_place_everybody_once(ms),
        }
        p.lemma_multiset_has_no_duplicates();
        seated(steps).lemma_multiset_has_no_duplicates_conv();
        assert forall|x: usize| #[trigger] seated(steps).contains(x) <==> x < ms.len() by {
            assert(seated(steps).contains(x) <==> seated(steps).to_multiset().count(x) > 0);
            assert(p.contains(x) <==> p.to_multiset().count(x) > 0);
            if x < ms.len() {
                assert(layout::has_pane(ms[x as int]));
                assert(p.contains(x));
            }
        }
    }
}

// ---------------------------------------------------------------------------
// Panes

/// The panes that are given to members, in the order in which they are.
pub open spec fn panes(steps: Seq<LayoutStep>) -> Seq<usize>
    decreases steps.len(),
{
    if steps.len() == 0 {
        Seq::empty()
    } else {
        match steps.last() {
            LayoutStep::Seat { pane, .. } => panes(steps.drop_last()).push(pane),
            _ => panes(steps.drop_last()),
        }
    }
}

proof fn lemma_panes_push(steps: Seq<LayoutStep>, step: LayoutStep)
    ensures
        panes(steps.push(step)) == (match step {
            LayoutStep::Seat { pane, .. } => panes(steps).push(pane),
            _ => panes(steps),
        }),
{
    assert(steps.push(step).drop_last() == steps);
}

/// From `d` to `e` only panes are given away that are free or were created
/// on the way, and none of them twice.
spec fn extends(d: Drawing, e: Drawing, is_free: spec_fn(int) -> bool) -> bool {
    let p = panes(d.steps);
    let q = panes(e.steps);
    &&& d.last <= e.last
    &&& p.len() <= q.len()
    &&& q.take(p.len() as int) == p
    &&& forall|k: int|
        p.len() <= k < q.len() ==> is_free((#[trigger] q[k]) as int) || d.last < q[k] <= e.last
    &&& forall|i: int, j: int|
        p.len() <= i < j < q.len() ==> (#[trigger] q[i]) != (#[trigger] q[j])
}

proof fn lemma_extends(
    d: Drawing,
    m: Drawing,
    e: Drawing,
    first: spec_fn(int) -> bool,
    second: spec_fn(int) -> bool,
    both: spec_fn(int) -> bool,
)
    requires
        extends(d, m, first),
        extends(m, e, second),
        forall|x: int| #[trigger] first(x) ==> x <= d.last,
        forall|x: int| #[trigger] second(x) ==> x <= d.last && !first(x),
        forall|x: int| #[trigger] both(x) <==> first(x) || second(x),
    ensures
        extends(d, e, both),
{
    let p = panes(d.steps);
    let r = panes(m.steps);
    let q = panes(e.steps);
    assert(q.take(p.len() as int) =~= r.take(p.len() as int));
    assert forall|k: int| p.len() <= k < q.len() implies both((#[trigger] q[k]) as int) || d.last
        < q[k] <= e.last by {
        if k < r.len() {
            assert(q.take(r.len() as int)[k] == r[k]);
            assert(first(r[k] as int) || d.last < r[k] <= m.last);
        } else {
            assert(second(q[k] as int) || m.last < q[k] <= e.last);
        }
    }
    assert forall|i: int, j: int| p.len() <= i < j < q.len() implies (#[trigger] q[i]) != (
    #[trigger] q[j]) by {
        if i < r.len() {
            assert(q.take(r.len() as int)[i] == r[i]);
            assert(first(r[i] as int) || d.last < r[i] <= m.last);
            if j < r.len() {
                assert(q.take(r.len() as int)[j] == r[j]);
            } else {
                assert(second(q[j] as int) || m.last < q[j] <= e.last);
            }
        }
    }
}

proof fn lemma_columns_give_no_pane(d: Drawing, first: nat, weights: Seq<u32>, upto: int)
    ensures
        panes(layout::draw_columns(d, first, weights, upto).steps) == panes(d.steps),
        layout::draw_columns(d, first, weights, upto).last == d.last + (if upto > 1 {
            upto - 1
        } else {
            0
        }),
    decreases upto,
{
    if upto > 1 {
        lemma_columns_give_no_pane(d, first, weights, upto - 1);
        let before = layout::draw_columns(d, first, weights, upto - 1);
        let after = layout::draw_columns(d, first, weights, upto);
        lemma_panes_push(before.steps, after.steps.last());
        assert(after.steps == before.steps.push(after.steps.last()));
    }
}

proof fn lemma_stack_above_panes(d: Drawing, pane: nat, members: Seq<usize>, from: int)
    requires
        1 <= from,
        d.last + members.len() <= usize::MAX,
    ensures
        layout::draw_stack_above(d, pane, members, from).last == d.last + (if from < members.len() {
            members.len() - from
        } else {
            0
        }),
        extends(d, layout::draw_stack_above(d, pane, members, from), |x: int| false),
    decreases members.len() - from,
{
    if from < members.len() {
        lemma_stack_above_panes(d, pane, members, from + 1);
        let before = layout::draw_stack_above(d, pane, members, from + 1);
        let after = layout::draw_stack_above(d, pane, members, from);
        let split = LayoutStep::SplitDown {
            from: pane as usize,
            pct: layout::stack_pct((from + 1) as nat),
        };
        let seat = LayoutStep::Seat { pane: (before.last + 1) as usize, member: members[from] };
        lemma_panes_push(before.steps, split);
        lemma_panes_push(before.steps.push(split), seat);
        let p = panes(d.steps);
        let r = panes(before.steps);
        let q = panes(after.steps);
        assert(q == r.push((before.last + 1) as usize));
        assert(q.take(p.len() as int) =~= r.take(p.len() as int));
        assert forall|k: int| p.len() <= k < q.len() implies d.last < (#[trigger] q[k])
            <= after.last by {
            if k < r.len() {
                assert(q[k] == r[k]);
            }
        }
        assert forall|i: int, j: int| p.len() <= i < j < q.len() implies (#[trigger] q[i]) != (
        #[trigger] q[j]) by {
            assert(q[i] == r[i]);
            if j < r.len() {
                assert(q[j] == r[j]);
            } else {
                assert(r[i] <= before.last);
            }
        }
    } else {
        assert(panes(d.steps).take(panes(d.steps).len() as int) =~= panes(d.steps));
    }
}

proof fn lemma_stack_panes(d: Drawing, pane: nat, members: Seq<usize>)
    requires
        members.len() > 0,
        pane <= d.last,
        d.last + members.len() <= usize::MAX,
    ensures
        layout::draw_stack(d, pane, members).last == d.last + members.len() - 1,
        extends(d, layout::draw_stack(d, pane, members), |x: int| x == pane),
{
    lemma_stack_above_panes(d, pane, members, 1);
    let above = layout::draw_stack_above(d, pane, members, 1);
    let after = layout::draw_stack(d, pane, members);
    let even = LayoutStep::EvenOut { pane: pane as usize };
    let seat = LayoutStep::Seat { pane: pane as usize, member: members[0] };
    lemma_panes_push(above.steps, even);
    lemma_panes_push(above.steps.push(even), seat);
    let p = panes(d.steps);
    let r = panes(above.steps);
    let q = panes(after.steps);
    assert(q == r.push(pane as usize));
    assert(q.take(p.len() as int) =~= r.take(p.len() as int));
    assert forall|k: int| p.len() <= k < q.len() implies q[k] == pane || d.last < (#[trigger] q[k])
        <= after.last by {
        if k < r.len() {
            assert(q[k] == r[k]);
        }
    }
    assert forall|i: int, j: int| p.len() <= i < j < q.len() implies (#[trigger] q[i]) != (
    #[trigger] q[j]) by {
        assert(q[i] == r[i]);
        assert(r[i] > d.last);
        if j < r.len() {
            assert(q[j] == r[j]);
        }
    }
}

/// The panes of the first `upto` columns.
spec fn is_column(first: nat, last: nat, upto: int) -> spec_fn(int) -> bool {
    |x: int| upto > 0 && (x == first || last < x <= last + upto - 1)
}

proof fn lemma_groups_panes(
    d: Drawing,
    first: nat,
    last: nat,
    groups: Seq<Seq<usize>>,
    upto: int,
)
    requires
        all_filled(groups),
        0 <= upto <= groups.len(),
        first <= last,
        last + groups.len() - 1 <= d.last,
        d.last + flat(groups.take(upto)).len() <= usize::MAX,
    ensures
        layout::draw_groups(d, first, last, groups, upto).last == d.last + flat(
            groups.take(upto),
        ).len() - upto,
        extends(
            d,
            layout::draw_groups(d, first, last, groups, upto),
            is_column(first, last, upto),
        ),
    decreases upto,
{
    if upto == 0 {
        assert(groups.take(0) == Seq::<Seq<usize>>::empty());
        assert(panes(d.steps).take(panes(d.steps).len() as int) =~= panes(d.steps));
    } else {
        assert(groups.take(upto).drop_last() == groups.take(upto - 1));
        assert(groups.take(upto).last() == groups[upto - 1]);
        assert(flat(groups.take(upto)).len() == flat(groups.take(upto - 1)).len() + groups[upto
            - 1].len());
        assert(groups[upto - 1].len() > 0);
        lemma_groups_panes(d, first, last, groups, upto - 1);
        let before = layout::draw_groups(d, first, last, groups, upto - 1);
        let after = layout::draw_groups(d, first, last, groups, upto);
        let pane = layout::column_pane(first, last, upto - 1);
        lemma_stack_panes(before, pane, groups[upto - 1]);
        lemma_extends(
            d,
            before,
            after,
            is_column(first, last, upto - 1),
            |x: int| x == pane,
            is_column(first, last, upto),
        );
    }
}

proof fn lemma_zone_panes(ms: Seq<MemberInstance>, d: Drawing, pane: nat, zone: ZoneView)
    requires
        zone.members.len() > 0,
        pane <= d.last,
        d.last + 2 * zone.members.len() <= usize::MAX,
    ensures
        layout::draw_zone(ms, d, pane, zone).last == d.last + zone.members.len() - 1,
        extends(d, layout::draw_zone(ms, d, pane, zone), |x: int| x == pane),
{
    let groups = layout::zone_groups(ms, zone);
    lemma_zone_groups(ms, zone);
    lemma_columns_give_no_pane(d, pane, layout::sizes(groups), groups.len() as int);
    lemma_filled_len(groups);
    let split = layout::draw_columns(d, pane, layout::sizes(groups), groups.len() as int);
    assert(groups.take(groups.len() as int) == groups);
    lemma_groups_panes(split, pane, d.last, groups, groups.len() as int);
    let e = layout::draw_zone(ms, d, pane, zone);
    let p = panes(d.steps);
    let q = panes(e.steps);
    assert forall|k: int| p.len() <= k < q.len() implies q[k] == pane || d.last < (#[trigger] q[k])
        <= e.last by {
        assert(is_column(pane, d.last, groups.len() as int)(q[k] as int) || split.last < q[k]
            <= e.last);
    }
}

/// Groups with somebody in each are no more than those in them.
pub proof fn lemma_filled_len(groups: Seq<Seq<usize>>)
    requires
        all_filled(groups),
    ensures
        groups.len() <= flat(groups).len(),
    decreases groups.len(),
{
    if groups.len() > 0 {
        let front = groups.drop_last();
        assert forall|k: int| 0 <= k < front.len() implies (#[trigger] front[k]).len() > 0 by {
            assert(front[k] == groups[k]);
        }
        lemma_filled_len(front);
        assert(groups[groups.len() - 1].len() > 0);
    }
}

proof fn lemma_zones_panes(
    ms: Seq<MemberInstance>,
    d: Drawing,
    zones: Seq<ZoneView>,
    upto: int,
)
    requires
        0 <= upto <= zones.len(),
        forall|k: int| 0 <= k < zones.len() ==> (#[trigger] zones[k]).members.len() > 0,
        d.last == zones.len() - 1,
        zones.len() + 2 * placed(zones.take(upto)).len() <= usize::MAX,
    ensures
        layout::draw_zones(ms, d, zones, upto).last == d.last + placed(zones.take(upto)).len()
            - upto,
        extends(d, layout::draw_zones(ms, d, zones, upto), |x: int| 0 <= x < upto),
    decreases upto,
{
    if upto == 0 {
        assert(zones.take(0) == Seq::<ZoneView>::empty());
        assert(panes(d.steps).take(panes(d.steps).len() as int) =~= panes(d.steps));
    } else {
        assert(zones.take(upto).drop_last() == zones.take(upto - 1));
        assert(zones.take(upto).last() == zones[upto - 1]);
        lemma_zones_panes(ms, d, zones, upto - 1);
        let before = layout::draw_zones(ms, d, zones, upto - 1);
        let after = layout::draw_zones(ms, d, zones, upto);
        let pane = layout::column_pane(0, 0, upto - 1);
        lemma_zone_panes(ms, before, pane, zones[upto - 1]);
        lemma_extends(
            d,
            before,
            after,
            |x: int| 0 <= x < upto - 1,
            |x: int| x == pane,
            |x: int| 0 <= x < upto,
        );
    }
}

pub proof fn lemma_no_zone_is_empty(ms: Seq<MemberInstance>, config: Option<LayoutConfig>)
    ensures
        forall|k: int|
            0 <= k < layout::team_zones(ms, config).len() ==> (#[trigger] layout::team_zones(
                ms,
                config,
            )[k]).members.len() > 0,
{
    let zones = layout::team_zones(ms, config);
    assert forall|k: int| 0 <= k < zones.len() implies (#[trigger] zones[k]).members.len() > 0 by {
        match config {
            Some(c) => law_no_configured_zone_is_empty(ms, c.zones@, k),
            None => {
                let za = layout::role_zone(ms, RoleType::Architect, 10);
                let zm = layout::role_zone(ms, RoleType::Manager, 15);
                if k < za.len() {
                    assert(zones[k] == za[k]);
                } else if k < za.len() + zm.len() {
                    assert(zones[k] == zm[k - za.len()]);
                }
            },
        }
    }
}

pub proof fn lemma_zones_no_more_than_placed(zones: Seq<ZoneView>)
    requires
        forall|k: int| 0 <= k < zones.len() ==> (#[trigger] zones[k]).members.len() > 0,
    ensures
        zones.len() <= placed(zones).len(),
    decreases zones.len(),
{
    if zones.len() > 0 {
        let front = zones.drop_last();
        assert forall|k: int| 0 <= k < front.len() implies (
        #[trigger] front[k]).members.len() > 0 by {
            assert(front[k] == zones[k]);
        }
        lemma_zones_no_more_than_placed(front);
        assert(zones[zones.len() - 1].members.len() > 0);
    }
}

/// No pane is given to two members.
pub proof fn law_no_pane_is_given_twice(ms: Seq<MemberInstance>, config: Option<LayoutConfig>)
    requires
        ms.len() <= layout::MAX_MEMBERS,
    ensures
        panes(layout::team_steps(ms, config)).no_duplicates(),
{
    let steps = layout::team_steps(ms, config);
    let zones = layout::team_zones(ms, config);
    if ms.len() == 1 {
        let seat = LayoutStep::Seat { pane: 0, member: 0 };
        assert(steps == Seq::<LayoutStep>::empty().push(seat));
        lemma_panes_push(Seq::empty(), seat);
    } else if zones.len() == 0 {
        assert(steps.len() == 0);
    } else {
        lemma_placed_in_team(ms, config);
        lemma_no_zone_is_empty(ms, config);
        lemma_zones_no_more_than_placed(zones);
        let n = zones.len() as int;
        lemma_columns_give_no_pane(layout::blank(), 0, layout::widths(zones), n);
        let start = layout::draw_columns(layout::blank(), 0, layout::widths(zones), n);
        assert(panes(layout::blank().steps) == Seq::<usize>::empty());
        assert(zones.take(n) == zones);
        lemma_zones_panes(ms, start, zones, n);
    }
}

} // verus!
