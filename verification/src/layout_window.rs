//! What a layout looks like.
//!
//! The steps of a layout are followed on a window: a pane that is split to the
//! right hands a share of its width to the new pane beside it, and a pane that
//! is split down keeps its width and gets the new pane right below it.

use vstd::prelude::*;

use crate::layout;
use crate::layout::{Drawing, LayoutConfig, LayoutStep, ZoneDef, ZoneView};
use crate::ratio;
use crate::team::{MemberInstance, RoleType};
use crate::text;

verus! {

/// A window with its panes in the order in which they were created. The
/// window is `unit` wide.
#[verifier::ext_equal]
pub struct Window {
    pub unit: nat,
    pub widths: Seq<nat>,
    /// The panes, from left to right and each column from top to bottom.
    pub order: Seq<usize>,
}

/// A window with one pane.
pub open spec fn bare() -> Window {
    Window { unit: 1, widths: seq![1], order: seq![0usize] }
}

/// The panes with `new` right behind `from`.
pub open spec fn put_behind(order: Seq<usize>, from: usize, new: usize) -> Seq<usize> {
    order.insert(order.index_of(from) + 1, new)
}

/// The window after a step. A split to the right gives the new pane `pct`
/// percent of the width and leaves the rest to the old one; all widths are
/// counted in hundredths of what they were counted in before.
pub open spec fn after_step(w: Window, step: LayoutStep) -> Window {
    match step {
        LayoutStep::SplitRight { from, pct } => Window {
            unit: w.unit * 100,
            widths: Seq::new(
                w.widths.len() + 1,
                |i: int|
                    if i == w.widths.len() {
                        w.widths[from as int] * pct as nat
                    } else if i == from {
                        (w.widths[i] * (100 - pct)) as nat
                    } else {
                        w.widths[i] * 100
                    },
            ),
            order: put_behind(w.order, from, w.widths.len() as usize),
        },
        LayoutStep::SplitDown { from, .. } => Window {
            unit: w.unit,
            widths: w.widths.push(w.widths[from as int]),
            order: put_behind(w.order, from, w.widths.len() as usize),
        },
        _ => w,
    }
}

/// The window after all steps.
pub open spec fn after_steps(w: Window, steps: Seq<LayoutStep>) -> Window
    decreases steps.len(),
{
    if steps.len() == 0 {
        w
    } else {
        after_step(after_steps(w, steps.drop_last()), steps.last())
    }
}

proof fn lemma_push(w: Window, steps: Seq<LayoutStep>, step: LayoutStep)
    ensures
        after_steps(w, steps.push(step)) == after_step(after_steps(w, steps), step),
{
    assert(steps.push(step).drop_last() =~= steps);
}

// ---------------------------------------------------------------------------
// Widths

/// `a` is off `b` by `n` two-hundredths of `whole` at most.
pub open spec fn is_near(a: int, b: int, n: int, whole: int) -> bool {
    -(n * whole) <= 200 * (a - b) <= n * whole
}

pub open spec fn hundreds(n: nat) -> nat
    decreases n,
{
    if n == 0 {
        1
    } else {
        100 * hundreds((n - 1) as nat)
    }
}

/// No column is less than a tenth of the columns from it on, nor more than
/// nine tenths.
pub open spec fn are_ordinary(weights: Seq<u32>) -> bool {
    forall|i: int|
        1 <= i < weights.len() ==> {
            let right = #[trigger] layout::weight_sum(weights.skip(i));
            let all = layout::weight_sum(weights.skip(i - 1));
            all <= 10 * right && 10 * right <= 9 * all
        }
}

/// One split of the pane to the right, in numbers: `a` units of the whole
/// stand for `s`, the pane is `v` wide and should hold `r` of `s`; then it
/// gives `p` percent away, which should hold `r1`.
proof fn lemma_split(a: int, s: int, v: int, r: int, r1: int, p: int, k: int)
    requires
        0 <= a,
        0 < s,
        0 <= r1 <= r <= s,
        0 <= p <= 100,
        0 <= k,
        is_near(v * s, a * r, k, a * s),
        -r <= 2 * (p * r - 100 * r1) <= r,
    ensures
        is_near((v * p) * s, (100 * a) * r1, k + 1, (100 * a) * s),
        is_near((v * (100 - p)) * s, (100 * a) * (r - r1), 2 * k + 1, (100 * a) * s),
{
    let e = v * s - a * r;
    let d = p * r - 100 * r1;
    let e1 = (v * p) * s - (100 * a) * r1;
    assert((v * p) * s == p * (v * s)) by (nonlinear_arith);
    assert(p * (v * s - a * r) == p * (v * s) - p * (a * r)) by (nonlinear_arith);
    assert(a * (p * r - 100 * r1) == a * (p * r) - 100 * (a * r1)) by (nonlinear_arith);
    assert(p * (a * r) == a * (p * r)) by (nonlinear_arith);
    assert((100 * a) * r1 == 100 * (a * r1)) by (nonlinear_arith);
    assert(e1 == p * e + a * d);
    let m = k * (a * s);
    assert(-(100 * m) <= 200 * (p * e) <= 100 * m) by (nonlinear_arith)
        requires
            -m <= 200 * e <= m,
            0 <= p <= 100,
    ;
    assert(-(a * s) <= 2 * (a * d) <= a * s) by (nonlinear_arith)
        requires
            -r <= 2 * d <= r,
            r <= s,
            0 <= a,
    ;
    assert((k + 1) * ((100 * a) * s) == 100 * m + 100 * (a * s)) by (nonlinear_arith)
        requires
            m == k * (a * s),
    ;
    let e2 = (v * (100 - p)) * s - (100 * a) * (r - r1);
    assert((v * (100 - p)) * s == 100 * (v * s) - p * (v * s)) by (nonlinear_arith);
    assert((100 * a) * (r - r1) == 100 * (a * r) - 100 * (a * r1)) by (nonlinear_arith);
    assert(e2 == 100 * e - e1);
    assert((2 * k + 1) * ((100 * a) * s) == 200 * m + 100 * (a * s)) by (nonlinear_arith)
        requires
            m == k * (a * s),
    ;
}

proof fn lemma_near_scaled(w: int, s: int, a: int, x: int, n: int)
    requires
        is_near(w * s, a * x, n, a * s),
    ensures
        is_near((w * 100) * s, (100 * a) * x, n, (100 * a) * s),
{
    let m = n * (a * s);
    assert((w * 100) * s == 100 * (w * s)) by (nonlinear_arith);
    assert((100 * a) * x == 100 * (a * x)) by (nonlinear_arith);
    assert(n * ((100 * a) * s) == 100 * m) by (nonlinear_arith)
        requires
            m == n * (a * s),
    ;
}

proof fn lemma_weight_tail(weights: Seq<u32>, i: int)
    requires
        0 < i <= weights.len(),
    ensures
        layout::weight_sum(weights.skip(i - 1)) == weights[i - 1] + layout::weight_sum(
            weights.skip(i),
        ),
{
    assert(weights.skip(i - 1).skip(1) =~= weights.skip(i));
    assert(weights.skip(i - 1)[0] == weights[i - 1]);
}

proof fn lemma_weight_tails(weights: Seq<u32>, i: int)
    requires
        0 <= i <= weights.len(),
    ensures
        layout::weight_sum(weights.skip(i)) <= layout::weight_sum(weights),
    decreases i,
{
    if i > 0 {
        lemma_weight_tails(weights, i - 1);
        lemma_weight_tail(weights, i);
    } else {
        assert(weights.skip(0) =~= weights);
    }
}

proof fn lemma_weight_positive(weights: Seq<u32>, i: int)
    requires
        0 <= i < weights.len(),
        forall|k: int| 0 <= k < weights.len() ==> (#[trigger] weights[k]) > 0,
    ensures
        layout::weight_sum(weights.skip(i)) > 0,
{
    lemma_weight_tail(weights, i + 1);
    assert(weights[i] > 0);
}

/// Where the first `upto` columns are drawn: the last of them still holds
/// everything to its right.
spec fn are_columns(
    before: Window,
    now: Window,
    d: Drawing,
    first: nat,
    weights: Seq<u32>,
    upto: int,
) -> bool {
    let scale = hundreds((upto - 1) as nat);
    let s = layout::weight_sum(weights) as int;
    let a = (before.widths[first as int] * scale) as int;
    let last = layout::column_pane(first, d.last, upto - 1) as int;
    &&& now.unit == before.unit * scale
    &&& now.widths.len() == before.widths.len() + upto - 1
    &&& forall|j: int|
        0 <= j < before.widths.len() && j != first ==> #[trigger] now.widths[j]
            == before.widths[j] * scale
    &&& is_near(
        now.widths[last] * s,
        a * layout::weight_sum(weights.skip(upto - 1)),
        upto - 1,
        a * s,
    )
    &&& forall|i: int|
        0 <= i < upto - 1 ==> is_near(
            now.widths[#[trigger] layout::column_pane(first, d.last, i) as int] * s,
            a * weights[i],
            2 * i + 1,
            a * s,
        )
}

proof fn lemma_columns(d: Drawing, first: nat, weights: Seq<u32>, upto: int)
    requires
        1 <= upto <= weights.len(),
        layout::weight_sum(weights) <= u32::MAX,
        forall|k: int| 0 <= k < weights.len() ==> (#[trigger] weights[k]) > 0,
        are_ordinary(weights),
        first <= d.last,
        after_steps(bare(), d.steps).widths.len() == d.last + 1,
        d.last + weights.len() <= usize::MAX,
    ensures
        are_columns(
            after_steps(bare(), d.steps),
            after_steps(bare(), layout::draw_columns(d, first, weights, upto).steps),
            d,
            first,
            weights,
            upto,
        ),
        layout::draw_columns(d, first, weights, upto).last == d.last + upto - 1,
    decreases upto,
{
    let before = after_steps(bare(), d.steps);
    let s = layout::weight_sum(weights) as int;
    let w0 = before.widths[first as int] as int;
    if upto == 1 {
        assert(weights.skip(0) =~= weights);
        assert(hundreds(0) == 1);
        assert(before.unit * 1 == before.unit);
        assert(w0 * 1 == w0);
        assert(is_near(w0 * s, w0 * s, 0, w0 * s)) by {
            assert(0 * (w0 * s) == 0);
        }
        assert forall|j: int| 0 <= j < before.widths.len() && j != first implies #[trigger]
            before.widths[j] == before.widths[j] * hundreds(0) by {
            assert(before.widths[j] * 1 == before.widths[j]);
        }
    } else {
        lemma_columns(d, first, weights, upto - 1);
        let d1 = layout::draw_columns(d, first, weights, upto - 1);
        let d2 = layout::draw_columns(d, first, weights, upto);
        let w1 = after_steps(bare(), d1.steps);
        let w2 = after_steps(bare(), d2.steps);
        let from = layout::column_pane(first, d.last, upto - 2);
        let step = d2.steps.last();
        lemma_push(bare(), d1.steps, step);
        assert(d2.steps == d1.steps.push(step));
        let r = layout::weight_sum(weights.skip(upto - 2));
        let r1 = layout::weight_sum(weights.skip(upto - 1));
        lemma_weight_tail(weights, upto - 1);
        lemma_weight_tails(weights, upto - 2);
        lemma_weight_positive(weights, upto - 1);
        assert(r <= 10 * r1 && 10 * r1 <= 9 * r);
        ratio::law_percent_is_the_nearest(r1, r);
        ratio::law_ordinary_shares_are_not_clamped(r1, r);
        let p = ratio::percent(r1, r) as int;
        assert(step == (LayoutStep::SplitRight { from: from as usize, pct: p as u32 }));
        let scale = hundreds((upto - 2) as nat);
        assert(hundreds((upto - 1) as nat) == 100 * scale);
        let a = (w0 * scale) as int;
        let v = w1.widths[from as int] as int;
        assert(p * (r as int) == ratio::percent(r1, r) * r);
        lemma_split(a, s, v, r as int, r1 as int, p, upto - 2);
        let a2 = (w0 * (100 * scale)) as int;
        assert(a2 == 100 * a) by (nonlinear_arith)
            requires
                a == w0 * scale,
                a2 == w0 * (100 * scale),
        ;
        let new = layout::column_pane(first, d.last, upto - 1) as int;
        assert(new == w1.widths.len());
        assert(w2.widths[new] == v * p);
        assert(w2.widths[from as int] == v * (100 - p));
        assert(r - r1 == weights[upto - 2]);
        assert(before.unit * (100 * scale) == (before.unit * scale) * 100) by (nonlinear_arith);
        assert forall|j: int| 0 <= j < before.widths.len() && j != first implies #[trigger]
            w2.widths[j] == before.widths[j] * (100 * scale) by {
            assert(w1.widths[j] == before.widths[j] * scale);
            assert(w2.widths[j] == w1.widths[j] * 100);
            assert((before.widths[j] * scale) * 100 == before.widths[j] * (100 * scale))
                by (nonlinear_arith);
        }
        assert forall|i: int| 0 <= i < upto - 1 implies is_near(
            w2.widths[#[trigger] layout::column_pane(first, d.last, i) as int] * s,
            a2 * weights[i],
            2 * i + 1,
            a2 * s,
        ) by {
            let pane = layout::column_pane(first, d.last, i) as int;
            if i < upto - 2 {
                assert(pane != from);
                assert(w2.widths[pane] == w1.widths[pane] * 100);
                lemma_near_scaled(w1.widths[pane] as int, s, a, weights[i] as int, 2 * i + 1);
            }
        }
    }
}

/// Columns are as wide as their weights: of the width of the pane that is
/// split into columns, each gets its part of the sum of the weights, off by
/// half a percent for each split that it took part in. Every other pane keeps
/// its width, and the window its.
pub proof fn law_columns_are_as_wide_as_their_weights(
    d: Drawing,
    first: nat,
    weights: Seq<u32>,
    i: int,
)
    requires
        0 <= i < weights.len(),
        layout::weight_sum(weights) <= u32::MAX,
        forall|k: int| 0 <= k < weights.len() ==> (#[trigger] weights[k]) > 0,
        are_ordinary(weights),
        first <= d.last,
        after_steps(bare(), d.steps).widths.len() == d.last + 1,
        d.last + weights.len() <= usize::MAX,
    ensures
        ({
            let before = after_steps(bare(), d.steps);
            let now = after_steps(
                bare(),
                layout::draw_columns(d, first, weights, weights.len() as int).steps,
            );
            let scale = hundreds((weights.len() - 1) as nat);
            let whole = (before.widths[first as int] * scale) as int;
            let s = layout::weight_sum(weights) as int;
            let pane = if i == 0 {
                first as int
            } else {
                d.last + i
            };
            &&& now.unit == before.unit * scale
            &&& now.widths.len() == before.widths.len() + weights.len() - 1
            &&& is_near(now.widths[pane] * s, whole * weights[i], 2 * i + 1, whole * s)
            &&& forall|j: int|
                0 <= j < before.widths.len() && j != first ==> #[trigger] now.widths[j]
                    == before.widths[j] * scale
        }),
{
    let n = weights.len() as int;
    lemma_columns(d, first, weights, n);
    if i == n - 1 {
        lemma_weight_tail(weights, n);
        assert(weights.skip(n).len() == 0);
        let before = after_steps(bare(), d.steps);
        let whole = (before.widths[first as int] * hundreds((n - 1) as nat)) as int;
        let s = layout::weight_sum(weights) as int;
        assert((n - 1) * (whole * s) <= (2 * i + 1) * (whole * s)) by (nonlinear_arith)
            requires
                n - 1 <= 2 * i + 1,
                whole >= 0,
                s >= 0,
        ;
    } else {
        let pane = layout::column_pane(first, d.last, i);
        assert(pane == (if i == 0 {
            first as int
        } else {
            d.last + i
        }));
    }
}

/// The layout of a team begins with one column for each zone, from left to
/// right, and each is as wide as its zone is configured to be, up to rounding.
pub proof fn law_zones_are_as_wide_as_configured(
    ms: Seq<MemberInstance>,
    config: Option<LayoutConfig>,
    zones: Seq<ZoneView>,
    i: int,
)
    requires
        ms.len() != 1,
        zones == layout::team_zones(ms, config),
        0 <= i < zones.len(),
        zones.len() <= layout::MAX_MEMBERS,
        layout::weight_sum(layout::widths(zones)) <= u32::MAX,
        forall|k: int| 0 <= k < zones.len() ==> (#[trigger] zones[k]).width_pct > 0,
        are_ordinary(layout::widths(zones)),
    ensures
        ({
            let n = zones.len() as int;
            let begun = layout::team_steps(ms, config).take(n - 1);
            let w = after_steps(bare(), begun);
            let total = layout::weight_sum(layout::widths(zones)) as int;
            &&& layout::team_steps(ms, config).len() >= n - 1
            &&& w.order == Seq::new(zones.len(), |k: int| k as usize)
            &&& w.widths.len() == n
            &&& is_near(
                w.widths[i] * total,
                w.unit * zones[i].width_pct,
                2 * i + 1,
                w.unit * total,
            )
        }),
{
    let n = zones.len() as int;
    let weights = layout::widths(zones);
    let d = layout::blank();
    assert forall|k: int| 0 <= k < weights.len() implies (#[trigger] weights[k]) > 0 by {
        assert(zones[k].width_pct > 0);
    }
    assert(after_steps(bare(), d.steps) == bare());
    law_columns_are_as_wide_as_their_weights(d, 0, weights, i);
    let columns = layout::draw_columns(d, 0, weights, n);
    lemma_columns_len(d, 0, weights, n);
    lemma_zones_extend(ms, columns, zones, n);
    let steps = layout::team_steps(ms, config);
    assert(steps.take(n - 1) =~= columns.steps);
    lemma_columns_in_order(weights, n);
    let scale = hundreds((n - 1) as nat);
    assert(1 * scale == scale);
}

proof fn lemma_columns_len(d: Drawing, first: nat, weights: Seq<u32>, upto: int)
    requires
        1 <= upto,
    ensures
        layout::draw_columns(d, first, weights, upto).steps.len() == d.steps.len() + upto - 1,
        layout::draw_columns(d, first, weights, upto).steps.take(d.steps.len() as int) == d.steps,
    decreases upto,
{
    if upto > 1 {
        lemma_columns_len(d, first, weights, upto - 1);
        let before = layout::draw_columns(d, first, weights, upto - 1);
        let after = layout::draw_columns(d, first, weights, upto);
        assert(after.steps.take(d.steps.len() as int) =~= before.steps.take(d.steps.len() as int));
    } else {
        assert(d.steps.take(d.steps.len() as int) =~= d.steps);
    }
}

/// What a drawing routine adds comes after what was there.
spec fn goes_on(d: Drawing, e: Drawing) -> bool {
    &&& d.steps.len() <= e.steps.len()
    &&& e.steps.take(d.steps.len() as int) == d.steps
}

proof fn lemma_goes_on(a: Drawing, b: Drawing, c: Drawing)
    requires
        goes_on(a, b),
        goes_on(b, c),
    ensures
        goes_on(a, c),
{
    assert(c.steps.take(a.steps.len() as int) =~= b.steps.take(a.steps.len() as int));
}

proof fn lemma_stack_above_extends(d: Drawing, pane: nat, members: Seq<usize>, from: int)
    ensures
        goes_on(d, layout::draw_stack_above(d, pane, members, from)),
    decreases members.len() - from,
{
    if from >= members.len() || from < 1 {
        assert(d.steps.take(d.steps.len() as int) =~= d.steps);
    } else {
        lemma_stack_above_extends(d, pane, members, from + 1);
        let before = layout::draw_stack_above(d, pane, members, from + 1);
        let after = layout::draw_stack_above(d, pane, members, from);
        assert(after.steps.take(d.steps.len() as int) =~= before.steps.take(d.steps.len() as int));
    }
}

proof fn lemma_groups_extend(
    d: Drawing,
    first: nat,
    last: nat,
    groups: Seq<Seq<usize>>,
    upto: int,
)
    ensures
        goes_on(d, layout::draw_groups(d, first, last, groups, upto)),
    decreases upto,
{
    if upto <= 0 {
        assert(d.steps.take(d.steps.len() as int) =~= d.steps);
    } else {
        lemma_groups_extend(d, first, last, groups, upto - 1);
        let before = layout::draw_groups(d, first, last, groups, upto - 1);
        let pane = layout::column_pane(first, last, upto - 1);
        lemma_stack_above_extends(before, pane, groups[upto - 1], 1);
        let above = layout::draw_stack_above(before, pane, groups[upto - 1], 1);
        let after = layout::draw_groups(d, first, last, groups, upto);
        assert(after.steps.take(before.steps.len() as int) =~= above.steps.take(
            before.steps.len() as int,
        ));
        lemma_goes_on(d, before, after);
    }
}

proof fn lemma_zones_extend(ms: Seq<MemberInstance>, d: Drawing, zones: Seq<ZoneView>, upto: int)
    ensures
        goes_on(d, layout::draw_zones(ms, d, zones, upto)),
    decreases upto,
{
    if upto <= 0 {
        assert(d.steps.take(d.steps.len() as int) =~= d.steps);
    } else {
        lemma_zones_extend(ms, d, zones, upto - 1);
        let before = layout::draw_zones(ms, d, zones, upto - 1);
        let pane = layout::column_pane(0, 0, upto - 1);
        let zone = zones[upto - 1];
        if zone.members.len() == 0 {
            assert(before.steps.take(before.steps.len() as int) =~= before.steps);
        } else {
            let groups = layout::zone_groups(ms, zone);
            let n = groups.len() as int;
            let split = layout::draw_columns(before, pane, layout::sizes(groups), n);
            if n >= 1 {
                lemma_columns_len(before, pane, layout::sizes(groups), n);
            } else {
                assert(before.steps.take(before.steps.len() as int) =~= before.steps);
            }
            lemma_groups_extend(split, pane, before.last, groups, n);
            lemma_goes_on(before, split, layout::draw_zone(ms, before, pane, zone));
        }
        lemma_goes_on(d, before, layout::draw_zones(ms, d, zones, upto));
    }
}

/// Columns that are drawn in a bare window stand from left to right.
proof fn lemma_columns_in_order(weights: Seq<u32>, upto: int)
    requires
        1 <= upto <= layout::MAX_MEMBERS,
    ensures
        ({
            let w = after_steps(
                bare(),
                layout::draw_columns(layout::blank(), 0, weights, upto).steps,
            );
            &&& w.order == Seq::new(upto as nat, |k: int| k as usize)
            &&& w.widths.len() == upto
        }),
    decreases upto,
{
    let d = layout::blank();
    let w = after_steps(bare(), layout::draw_columns(d, 0, weights, upto).steps);
    if upto == 1 {
        assert(w.order =~= Seq::new(1, |k: int| k as usize));
    } else {
        lemma_columns_in_order(weights, upto - 1);
        let d1 = layout::draw_columns(d, 0, weights, upto - 1);
        let d2 = layout::draw_columns(d, 0, weights, upto);
        let w1 = after_steps(bare(), d1.steps);
        lemma_push(bare(), d1.steps, d2.steps.last());
        assert(d2.steps == d1.steps.push(d2.steps.last()));
        let from = (upto - 2) as usize;
        assert(d2.steps.last()->SplitRight_from == from);
        assert(w1.order[upto - 2] == from);
        let at = w1.order.index_of(from);
        assert(w1.order.contains(from));
        assert(w1.order[at] == from && 0 <= at < w1.order.len());
        assert(at == upto - 2);
        assert(w.order =~= Seq::new(upto as nat, |k: int| k as usize));
    }
}

// ---------------------------------------------------------------------------
// Stacks

/// The members that sit in a pane, by the steps.
pub open spec fn member_in(steps: Seq<LayoutStep>, pane: usize) -> Option<usize>
    decreases steps.len(),
{
    if steps.len() == 0 {
        None
    } else {
        match steps.last() {
            LayoutStep::Seat { pane: p, member } => if p == pane {
                Some(member)
            } else {
                member_in(steps.drop_last(), pane)
            },
            _ => member_in(steps.drop_last(), pane),
        }
    }
}

proof fn lemma_member_push(steps: Seq<LayoutStep>, step: LayoutStep, pane: usize)
    ensures
        member_in(steps.push(step), pane) == (match step {
            LayoutStep::Seat { pane: p, member } => if p == pane {
                Some(member)
            } else {
                member_in(steps, pane)
            },
            _ => member_in(steps, pane),
        }),
{
    assert(steps.push(step).drop_last() =~= steps);
}

/// Where members from `from` on are stacked: right below the pane stand their
/// panes, from top to bottom in their order, all as wide as the pane.
spec fn is_stack(
    before: Window,
    now: Window,
    d: Drawing,
    e: Drawing,
    pane: nat,
    members: Seq<usize>,
    from: int,
) -> bool {
    let at = before.order.index_of(pane as usize);
    let n = members.len() - from;
    &&& now.unit == before.unit
    &&& now.widths.len() == before.widths.len() + n
    &&& e.last == d.last + n
    &&& now.order.len() == before.order.len() + n
    &&& now.order.take(at + 1) == before.order.take(at + 1)
    &&& forall|j: int|
        0 <= j < n ==> {
            let p = #[trigger] now.order[at + 1 + j];
            &&& d.last < p <= e.last
            &&& member_in(e.steps, p) == Some(members[from + j])
            &&& now.widths[p as int] == before.widths[pane as int]
        }
    &&& forall|j: int|
        at + 1 + n <= j < now.order.len() ==> #[trigger] now.order[j] == before.order[j - n]
    &&& forall|j: int|
        0 <= j < before.widths.len() ==> #[trigger] now.widths[j] == before.widths[j]
}

proof fn lemma_stack(d: Drawing, pane: nat, members: Seq<usize>, from: int)
    requires
        1 <= from <= members.len(),
        d.last + members.len() <= usize::MAX,
        pane <= d.last,
        after_steps(bare(), d.steps).widths.len() == d.last + 1,
        after_steps(bare(), d.steps).order.contains(pane as usize),
        after_steps(bare(), d.steps).order.no_duplicates(),
        forall|j: int|
            0 <= j < after_steps(bare(), d.steps).order.len() ==> (#[trigger] after_steps(
                bare(),
                d.steps,
            ).order[j]) <= d.last,
    ensures
        is_stack(
            after_steps(bare(), d.steps),
            after_steps(bare(), layout::draw_stack_above(d, pane, members, from).steps),
            d,
            layout::draw_stack_above(d, pane, members, from),
            pane,
            members,
            from,
        ),
    decreases members.len() - from,
{
    let before = after_steps(bare(), d.steps);
    let at = before.order.index_of(pane as usize);
    assert(before.order[at] == pane as usize && 0 <= at < before.order.len());
    if from < members.len() {
        lemma_stack(d, pane, members, from + 1);
        let d1 = layout::draw_stack_above(d, pane, members, from + 1);
        let d2 = layout::draw_stack_above(d, pane, members, from);
        let w1 = after_steps(bare(), d1.steps);
        let w2 = after_steps(bare(), d2.steps);
        let split = LayoutStep::SplitDown {
            from: pane as usize,
            pct: layout::stack_pct((from + 1) as nat),
        };
        let new = (d1.last + 1) as usize;
        let seat = LayoutStep::Seat { pane: new, member: members[from] };
        assert(d2.steps == d1.steps.push(split).push(seat));
        lemma_push(bare(), d1.steps, split);
        lemma_push(bare(), d1.steps.push(split), seat);
        assert(w1.order[at] == pane as usize) by {
            assert(w1.order.take(at + 1)[at] == before.order.take(at + 1)[at]);
        }
        let at1 = w1.order.index_of(pane as usize);
        assert(w1.order.contains(pane as usize));
        assert(w1.order[at1] == pane as usize && 0 <= at1 < w1.order.len());
        assert(at1 == at) by {
            let m = members.len() - (from + 1);
            if at1 < at {
                assert(w1.order.take(at + 1)[at1] == before.order.take(at + 1)[at1]);
            } else if at < at1 <= at + m {
                assert(w1.order[at + 1 + (at1 - at - 1)] > d.last);
            } else if at1 > at + m {
                assert(w1.order[at1] == before.order[at1 - m]);
            }
        }
        assert(w2.order =~= w1.order.insert(at + 1, new));
        let n = members.len() - from;
        assert(w2.order.take(at + 1) =~= w1.order.take(at + 1));
        assert forall|j: int| 0 <= j < n implies {
            let p = #[trigger] w2.order[at + 1 + j];
            &&& d.last < p <= d2.last
            &&& member_in(d2.steps, p) == Some(members[from + j])
            &&& w2.widths[p as int] == before.widths[pane as int]
        } by {
            let p = w2.order[at + 1 + j];
            lemma_member_push(d1.steps, split, p);
            lemma_member_push(d1.steps.push(split), seat, p);
            if j == 0 {
                assert(p == new);
                assert(w1.widths[pane as int] == before.widths[pane as int]);
            } else {
                assert(p == w1.order[at + 1 + (j - 1)]);
                assert(p <= d1.last);
            }
        }
        assert forall|j: int| at + 1 + n <= j < w2.order.len() implies #[trigger] w2.order[j]
            == before.order[j - n] by {
            assert(w2.order[j] == w1.order[j - 1]);
        }
    } else {
        assert forall|j: int| at + 1 <= j < before.order.len() implies #[trigger] before.order[j]
            == before.order[j - 0] by {}
    }
}

/// Members that are stacked in a pane sit there from top to bottom in their
/// order, the first of them in the pane itself and the others right below it,
/// all as wide as the pane was; and the stack is evened out.
pub proof fn law_stacks_stand_in_order(d: Drawing, pane: nat, members: Seq<usize>, j: int)
    requires
        0 <= j < members.len(),
        d.last + members.len() <= usize::MAX,
        pane <= d.last,
        after_steps(bare(), d.steps).widths.len() == d.last + 1,
        after_steps(bare(), d.steps).order.contains(pane as usize),
        after_steps(bare(), d.steps).order.no_duplicates(),
        forall|i: int|
            0 <= i < after_steps(bare(), d.steps).order.len() ==> (#[trigger] after_steps(
                bare(),
                d.steps,
            ).order[i]) <= d.last,
    ensures
        ({
            let before = after_steps(bare(), d.steps);
            let e = layout::draw_stack(d, pane, members);
            let now = after_steps(bare(), e.steps);
            let at = before.order.index_of(pane as usize);
            let p = now.order[at + j];
            &&& j == 0 ==> p == pane
            &&& member_in(e.steps, p) == Some(members[j])
            &&& now.widths[p as int] == before.widths[pane as int]
            &&& now.widths.len() == before.widths.len() + members.len() - 1
            &&& e.steps.contains(LayoutStep::EvenOut { pane: pane as usize })
            &&& forall|k: int|
                at + members.len() <= k < now.order.len() ==> #[trigger] now.order[k]
                    == before.order[k - members.len() + 1]
        }),
{
    let before = after_steps(bare(), d.steps);
    let at = before.order.index_of(pane as usize);
    assert(before.order[at] == pane as usize && 0 <= at < before.order.len());
    lemma_stack(d, pane, members, 1);
    let above = layout::draw_stack_above(d, pane, members, 1);
    let e = layout::draw_stack(d, pane, members);
    let even = LayoutStep::EvenOut { pane: pane as usize };
    let seat = LayoutStep::Seat { pane: pane as usize, member: members[0] };
    lemma_push(bare(), above.steps, even);
    lemma_push(bare(), above.steps.push(even), seat);
    let now = after_steps(bare(), e.steps);
    let p = now.order[at + j];
    lemma_member_push(above.steps, even, p);
    lemma_member_push(above.steps.push(even), seat, p);
    assert(e.steps[e.steps.len() - 2] == even);
    if j == 0 {
        assert(now.order.take(at + 1)[at] == before.order.take(at + 1)[at]);
    } else {
        assert(p == now.order[at + 1 + (j - 1)]);
        assert(p > d.last);
    }
}

/// Of `n` panes that are to be equally high, the one that is split off first
/// gets its part of a hundred percent, to the nearest whole one.
pub proof fn law_stacked_panes_get_equal_shares(n: nat)
    requires
        2 <= n <= 10,
    ensures
        -(n as int) <= 2 * (layout::stack_pct(n) * n - 100) <= n,
{
    let x = (200 + n) / (2 * n);
    let r = (200 + n) % (2 * n);
    vstd::arithmetic::div_mod::lemma_fundamental_div_mod((200 + n) as int, (2 * n) as int);
    assert((2 * n) * x == 2 * (x * n)) by (nonlinear_arith);
    assert(10 <= x <= 90) by (nonlinear_arith)
        requires
            200 + n == 2 * (x * n) + r,
            0 <= r < 2 * n,
            2 <= n <= 10,
    ;
}

/// The groups of a zone stand in columns of its pane, and each is as wide as
/// it has members, up to rounding.
pub proof fn law_groups_are_as_wide_as_they_are_large(
    ms: Seq<MemberInstance>,
    d: Drawing,
    pane: nat,
    zone: ZoneView,
    i: int,
)
    requires
        0 < zone.members.len() <= layout::MAX_MEMBERS,
        0 <= i < layout::zone_groups(ms, zone).len(),
        are_ordinary(layout::sizes(layout::zone_groups(ms, zone))),
        pane <= d.last,
        after_steps(bare(), d.steps).widths.len() == d.last + 1,
        d.last + layout::zone_groups(ms, zone).len() <= usize::MAX,
    ensures
        ({
            let groups = layout::zone_groups(ms, zone);
            let g = groups.len() as int;
            let before = after_steps(bare(), d.steps);
            let drawn = layout::draw_zone(ms, d, pane, zone).steps;
            let now = after_steps(bare(), drawn.take(d.steps.len() + g - 1));
            let whole = (before.widths[pane as int] * hundreds((g - 1) as nat)) as int;
            let total = layout::weight_sum(layout::sizes(groups)) as int;
            let column = if i == 0 {
                pane as int
            } else {
                d.last + i
            };
            &&& drawn.len() >= d.steps.len() + g - 1
            &&& now.widths.len() == before.widths.len() + g - 1
            &&& is_near(
                now.widths[column] * total,
                whole * groups[i].len(),
                2 * i + 1,
                whole * total,
            )
        }),
{
    let groups = layout::zone_groups(ms, zone);
    let g = groups.len() as int;
    let weights = layout::sizes(groups);
    crate::layout_laws::lemma_zone_is_drawable(ms, zone);
    assert forall|k: int| 0 <= k < weights.len() implies (#[trigger] weights[k]) > 0 by {
        assert(groups[k].len() > 0);
        assert(groups[k].len() <= layout::MAX_MEMBERS);
    }
    assert(groups[i].len() <= layout::MAX_MEMBERS);
    law_columns_are_as_wide_as_their_weights(d, pane, weights, i);
    let split = layout::draw_columns(d, pane, weights, g);
    lemma_columns_len(d, pane, weights, g);
    lemma_groups_extend(split, pane, d.last, groups, g);
    assert(layout::draw_zone(ms, d, pane, zone).steps.take(d.steps.len() + g - 1) =~= split.steps);
}

// ---------------------------------------------------------------------------
// Zones

/// Which of the first `n` columns each pane was split off from, in the order
/// in which the panes were created.
pub open spec fn roots(steps: Seq<LayoutStep>, n: nat) -> Seq<int>
    decreases steps.len(),
{
    if steps.len() == 0 {
        seq![0int]
    } else {
        let before = roots(steps.drop_last(), n);
        let from = match steps.last() {
            LayoutStep::SplitRight { from, .. } => Some(from),
            LayoutStep::SplitDown { from, .. } => Some(from),
            _ => None,
        };
        match from {
            Some(pane) => before.push(
                if before.len() < n {
                    before.len() as int
                } else {
                    before[pane as int]
                },
            ),
            None => before,
        }
    }
}

proof fn lemma_roots_push(steps: Seq<LayoutStep>, step: LayoutStep, n: nat)
    ensures
        ({
            let before = roots(steps, n);
            roots(steps.push(step), n) == (match step {
                LayoutStep::SplitRight { from, .. } => before.push(
                    if before.len() < n {
                        before.len() as int
                    } else {
                        before[from as int]
                    },
                ),
                LayoutStep::SplitDown { from, .. } => before.push(
                    if before.len() < n {
                        before.len() as int
                    } else {
                        before[from as int]
                    },
                ),
                _ => before,
            })
        }),
{
    assert(steps.push(step).drop_last() =~= steps);
}

/// From `d` to `e` everything happens in the column `x`: the panes that are
/// created belong to it, and so do those that are given to members.
spec fn stays_in(d: Drawing, e: Drawing, n: nat, x: int) -> bool {
    let p = roots(d.steps, n);
    let q = roots(e.steps, n);
    &&& goes_on(d, e)
    &&& q.len() == e.last + 1
    &&& p.len() == d.last + 1
    &&& p.len() <= q.len()
    &&& forall|k: int| 0 <= k < p.len() ==> #[trigger] q[k] == p[k]
    &&& forall|k: int| p.len() <= k < q.len() ==> #[trigger] q[k] == x
    &&& forall|s: int|
        d.steps.len() <= s < e.steps.len() ==> (#[trigger] e.steps[s] matches LayoutStep::Seat {
            pane,
            ..
        } ==> pane < q.len() && q[pane as int] == x)
}

proof fn lemma_stays(a: Drawing, b: Drawing, c: Drawing, n: nat, x: int)
    requires
        stays_in(a, b, n, x),
        stays_in(b, c, n, x),
    ensures
        stays_in(a, c, n, x),
{
    lemma_goes_on(a, b, c);
    let q = roots(c.steps, n);
    assert forall|s: int| a.steps.len() <= s < c.steps.len() implies (#[trigger] c.steps[s]
        matches LayoutStep::Seat { pane, .. } ==> pane < q.len() && q[pane as int] == x) by {
        if s < b.steps.len() {
            assert(c.steps.take(b.steps.len() as int)[s] == b.steps[s]);
            if let LayoutStep::Seat { pane, .. } = b.steps[s] {
                assert(roots(b.steps, n)[pane as int] == x);
                assert(q[pane as int] == roots(b.steps, n)[pane as int]);
            }
        }
    }
    assert forall|k: int| roots(a.steps, n).len() <= k < q.len() implies #[trigger] q[k] == x by {
        if k < roots(b.steps, n).len() {
            assert(q[k] == roots(b.steps, n)[k]);
        }
    }
    assert forall|k: int| 0 <= k < roots(a.steps, n).len() implies #[trigger] q[k] == roots(
        a.steps,
        n,
    )[k] by {
        assert(q[k] == roots(b.steps, n)[k]);
    }
}

proof fn lemma_stays_still(d: Drawing, n: nat, x: int)
    requires
        roots(d.steps, n).len() == d.last + 1,
    ensures
        stays_in(d, d, n, x),
{
    assert(d.steps.take(d.steps.len() as int) =~= d.steps);
}

proof fn lemma_split_stays(d: Drawing, step: LayoutStep, from: usize, n: nat, x: int)
    requires
        (step matches LayoutStep::SplitRight { from: f, .. } && f == from) || (step
            matches LayoutStep::SplitDown { from: f, .. } && f == from),
        roots(d.steps, n).len() == d.last + 1,
        n <= d.last + 1,
        from <= d.last,
        roots(d.steps, n)[from as int] == x,
    ensures
        stays_in(d, Drawing { steps: d.steps.push(step), last: d.last + 1 }, n, x),
{
    lemma_roots_push(d.steps, step, n);
    assert(d.steps.push(step).take(d.steps.len() as int) =~= d.steps);
}

proof fn lemma_other_stays(d: Drawing, step: LayoutStep, n: nat, x: int)
    requires
        step is EvenOut || (step matches LayoutStep::Seat { pane, .. } && pane <= d.last && roots(
            d.steps,
            n,
        )[pane as int] == x),
        roots(d.steps, n).len() == d.last + 1,
    ensures
        stays_in(d, Drawing { steps: d.steps.push(step), last: d.last }, n, x),
{
    lemma_roots_push(d.steps, step, n);
    assert(d.steps.push(step).take(d.steps.len() as int) =~= d.steps);
}

proof fn lemma_columns_stay(
    d: Drawing,
    first: nat,
    weights: Seq<u32>,
    upto: int,
    n: nat,
    x: int,
)
    requires
        1 <= upto,
        roots(d.steps, n).len() == d.last + 1,
        n <= d.last + 1,
        first <= d.last,
        roots(d.steps, n)[first as int] == x,
        d.last + upto <= usize::MAX,
    ensures
        stays_in(d, layout::draw_columns(d, first, weights, upto), n, x),
        layout::draw_columns(d, first, weights, upto).last == d.last + upto - 1,
    decreases upto,
{
    if upto == 1 {
        lemma_stays_still(d, n, x);
    } else {
        lemma_columns_stay(d, first, weights, upto - 1, n, x);
        let before = layout::draw_columns(d, first, weights, upto - 1);
        let after = layout::draw_columns(d, first, weights, upto);
        let from = layout::column_pane(first, d.last, upto - 2) as usize;
        assert(roots(before.steps, n)[from as int] == x);
        lemma_split_stays(before, after.steps.last(), from, n, x);
        assert(after.steps == before.steps.push(after.steps.last()));
        lemma_stays(d, before, after, n, x);
    }
}

proof fn lemma_stack_above_stays(
    d: Drawing,
    pane: nat,
    members: Seq<usize>,
    from: int,
    n: nat,
    x: int,
)
    requires
        1 <= from,
        roots(d.steps, n).len() == d.last + 1,
        n <= d.last + 1,
        pane <= d.last,
        roots(d.steps, n)[pane as int] == x,
        d.last + members.len() <= usize::MAX,
    ensures
        stays_in(d, layout::draw_stack_above(d, pane, members, from), n, x),
        layout::draw_stack_above(d, pane, members, from).last == d.last + (if from
            < members.len() {
            members.len() - from
        } else {
            0
        }),
    decreases members.len() - from,
{
    if from >= members.len() {
        lemma_stays_still(d, n, x);
    } else {
        lemma_stack_above_stays(d, pane, members, from + 1, n, x);
        let before = layout::draw_stack_above(d, pane, members, from + 1);
        let split = LayoutStep::SplitDown {
            from: pane as usize,
            pct: layout::stack_pct((from + 1) as nat),
        };
        let seat = LayoutStep::Seat { pane: (before.last + 1) as usize, member: members[from] };
        let middle = Drawing { steps: before.steps.push(split), last: before.last + 1 };
        assert(roots(before.steps, n)[pane as int] == x);
        lemma_split_stays(before, split, pane as usize, n, x);
        lemma_stays(d, before, middle, n, x);
        lemma_other_stays(middle, seat, n, x);
        lemma_stays(d, middle, layout::draw_stack_above(d, pane, members, from), n, x);
    }
}

proof fn lemma_groups_stay(
    d: Drawing,
    first: nat,
    last: nat,
    groups: Seq<Seq<usize>>,
    upto: int,
    n: nat,
    x: int,
)
    requires
        crate::layout_laws::all_filled(groups),
        0 <= upto <= groups.len(),
        roots(d.steps, n).len() == d.last + 1,
        n <= d.last + 1,
        first <= last,
        last + groups.len() - 1 <= d.last,
        forall|k: int|
            0 <= k < groups.len() ==> roots(d.steps, n)[#[trigger] layout::column_pane(
                first,
                last,
                k,
            ) as int] == x,
        d.last + crate::layout_laws::flat(groups.take(upto)).len() <= usize::MAX,
    ensures
        stays_in(d, layout::draw_groups(d, first, last, groups, upto), n, x),
        layout::draw_groups(d, first, last, groups, upto).last == d.last
            + crate::layout_laws::flat(groups.take(upto)).len() - upto,
    decreases upto,
{
    if upto == 0 {
        lemma_stays_still(d, n, x);
        assert(groups.take(0) =~= Seq::<Seq<usize>>::empty());
    } else {
        assert(groups.take(upto).drop_last() =~= groups.take(upto - 1));
        assert(groups.take(upto).last() == groups[upto - 1]);
        let members = groups[upto - 1];
        assert(members.len() > 0);
        assert(crate::layout_laws::flat(groups.take(upto)).len() == crate::layout_laws::flat(
            groups.take(upto - 1),
        ).len() + members.len());
        lemma_groups_stay(d, first, last, groups, upto - 1, n, x);
        let before = layout::draw_groups(d, first, last, groups, upto - 1);
        let pane = layout::column_pane(first, last, upto - 1);
        assert(roots(d.steps, n)[pane as int] == x);
        assert(roots(before.steps, n)[pane as int] == x);
        lemma_stack_above_stays(before, pane, members, 1, n, x);
        let above = layout::draw_stack_above(before, pane, members, 1);
        lemma_stays(d, before, above, n, x);
        let even = LayoutStep::EvenOut { pane: pane as usize };
        let seat = LayoutStep::Seat { pane: pane as usize, member: members[0] };
        let evened = Drawing { steps: above.steps.push(even), last: above.last };
        lemma_other_stays(above, even, n, x);
        lemma_stays(d, above, evened, n, x);
        assert(roots(evened.steps, n)[pane as int] == x);
        lemma_other_stays(evened, seat, n, x);
        lemma_stays(d, evened, layout::draw_groups(d, first, last, groups, upto), n, x);
    }
}

/// Every seat that was given away so far is in the zone of its member.
spec fn are_at_home(steps: Seq<LayoutStep>, zones: Seq<ZoneView>) -> bool {
    let q = roots(steps, zones.len());
    forall|s: int|
        0 <= s < steps.len() ==> (#[trigger] steps[s] matches LayoutStep::Seat { pane, member }
            ==> pane < q.len() && 0 <= q[pane as int] < zones.len()
            && zones[q[pane as int]].members.contains(member))
}

proof fn lemma_seated_added(steps: Seq<LayoutStep>, k: int, s: int)
    requires
        0 <= k <= s < steps.len(),
        steps[s] is Seat,
    ensures
        crate::layout_laws::seated(steps).len() > crate::layout_laws::seated(steps.take(k)).len(),
        crate::layout_laws::seated(steps).skip(
            crate::layout_laws::seated(steps.take(k)).len() as int,
        ).contains(steps[s]->Seat_member),
        crate::layout_laws::seated(steps).take(
            crate::layout_laws::seated(steps.take(k)).len() as int,
        ) == crate::layout_laws::seated(steps.take(k)),
    decreases steps.len(),
{
    let front = steps.drop_last();
    let a = crate::layout_laws::seated(steps.take(k));
    lemma_seated_prefix(steps, k);
    let all = crate::layout_laws::seated(steps);
    let member = steps[s]->Seat_member;
    if s == steps.len() - 1 {
        lemma_seated_prefix(front, k);
        assert(front.take(k) =~= steps.take(k));
        assert(all == crate::layout_laws::seated(front).push(member));
        let i = all.len() - 1 - a.len();
        assert(all.skip(a.len() as int)[i] == member);
    } else {
        lemma_seated_added(front, k, s);
        assert(front.take(k) =~= steps.take(k));
        let f = crate::layout_laws::seated(front);
        let i = choose|i: int|
            0 <= i < f.skip(a.len() as int).len() && f.skip(a.len() as int)[i] == member;
        assert(all.skip(a.len() as int)[i] == member);
    }
}

proof fn lemma_seated_prefix(steps: Seq<LayoutStep>, k: int)
    requires
        0 <= k <= steps.len(),
    ensures
        crate::layout_laws::seated(steps.take(k)).len() <= crate::layout_laws::seated(steps).len(),
        crate::layout_laws::seated(steps).take(
            crate::layout_laws::seated(steps.take(k)).len() as int,
        ) == crate::layout_laws::seated(steps.take(k)),
    decreases steps.len() - k,
{
    let a = crate::layout_laws::seated(steps.take(k));
    if k == steps.len() {
        assert(steps.take(k) =~= steps);
        assert(a.take(a.len() as int) =~= a);
    } else {
        lemma_seated_prefix(steps, k + 1);
        assert(steps.take(k + 1).drop_last() =~= steps.take(k));
        let b = crate::layout_laws::seated(steps.take(k + 1));
        assert(b.take(a.len() as int) =~= a);
        assert(crate::layout_laws::seated(steps).take(a.len() as int) =~= b.take(a.len() as int));
    }
}

proof fn lemma_zones_at_home(
    ms: Seq<MemberInstance>,
    d: Drawing,
    zones: Seq<ZoneView>,
    upto: int,
)
    requires
        0 <= upto <= zones.len(),
        forall|k: int| 0 <= k < zones.len() ==> (#[trigger] zones[k]).members.len() > 0,
        roots(d.steps, zones.len()).len() == d.last + 1,
        d.last + 1 == zones.len(),
        forall|k: int| 0 <= k < zones.len() ==> #[trigger] roots(d.steps, zones.len())[k] == k,
        crate::layout_laws::seated(d.steps).len() == 0,
        are_at_home(d.steps, zones),
        zones.len() + 2 * crate::layout_laws::placed(zones.take(upto)).len() <= usize::MAX,
    ensures
        are_at_home(layout::draw_zones(ms, d, zones, upto).steps, zones),
        goes_on(d, layout::draw_zones(ms, d, zones, upto)),
        roots(layout::draw_zones(ms, d, zones, upto).steps, zones.len()).len()
            == layout::draw_zones(ms, d, zones, upto).last + 1,
        forall|k: int|
            0 <= k < zones.len() ==> #[trigger] roots(
                layout::draw_zones(ms, d, zones, upto).steps,
                zones.len(),
            )[k] == k,
        layout::draw_zones(ms, d, zones, upto).last == d.last + crate::layout_laws::placed(
            zones.take(upto),
        ).len() - upto,
    decreases upto,
{
    let n = zones.len();
    if upto == 0 {
        assert(zones.take(0) =~= Seq::<ZoneView>::empty());
        assert(d.steps.take(d.steps.len() as int) =~= d.steps);
    } else {
        assert(zones.take(upto).drop_last() =~= zones.take(upto - 1));
        assert(zones.take(upto).last() == zones[upto - 1]);
        lemma_zones_at_home(ms, d, zones, upto - 1);
        let before = layout::draw_zones(ms, d, zones, upto - 1);
        let after = layout::draw_zones(ms, d, zones, upto);
        let pane = layout::column_pane(0, 0, upto - 1);
        let zone = zones[upto - 1];
        let x = upto - 1;
        assert(roots(before.steps, n)[pane as int] == x);
        assert forall|k: int| 0 <= k < zones.take(upto - 1).len() implies (
        #[trigger] zones.take(upto - 1)[k]).members.len() > 0 by {
            assert(zones[k].members.len() > 0);
        }
        crate::layout_laws::lemma_zones_no_more_than_placed(zones.take(upto - 1));
        lemma_zone_stays(ms, before, pane, zone, n, x);
        lemma_goes_on(d, before, after);
        crate::layout_laws::lemma_zone_seats(ms, before, pane, zone);
        lemma_zone_at_home(before, after, zones, x);
    }
}

proof fn lemma_zone_stays(
    ms: Seq<MemberInstance>,
    d: Drawing,
    pane: nat,
    zone: ZoneView,
    n: nat,
    x: int,
)
    requires
        zone.members.len() > 0,
        roots(d.steps, n).len() == d.last + 1,
        n <= d.last + 1,
        pane <= d.last,
        roots(d.steps, n)[pane as int] == x,
        d.last + 2 * zone.members.len() <= usize::MAX,
    ensures
        stays_in(d, layout::draw_zone(ms, d, pane, zone), n, x),
        layout::draw_zone(ms, d, pane, zone).last == d.last + zone.members.len() - 1,
{
    let groups = layout::zone_groups(ms, zone);
    let g = groups.len() as int;
    crate::layout_laws::lemma_zone_groups(ms, zone);
    crate::layout_laws::lemma_filled_len(groups);
    lemma_columns_stay(d, pane, layout::sizes(groups), g, n, x);
    let split = layout::draw_columns(d, pane, layout::sizes(groups), g);
    assert forall|k: int| 0 <= k < groups.len() implies roots(
        split.steps,
        n,
    )[#[trigger] layout::column_pane(pane, d.last, k) as int] == x by {
        let p = layout::column_pane(pane, d.last, k) as int;
        if k == 0 {
            assert(roots(split.steps, n)[p] == roots(d.steps, n)[p]);
        }
    }
    assert(groups.take(g) =~= groups);
    lemma_groups_stay(split, pane, d.last, groups, g, n, x);
    lemma_stays(d, split, layout::draw_zone(ms, d, pane, zone), n, x);
}

proof fn lemma_zone_at_home(before: Drawing, after: Drawing, zones: Seq<ZoneView>, x: int)
    requires
        0 <= x < zones.len(),
        are_at_home(before.steps, zones),
        stays_in(before, after, zones.len(), x),
        crate::layout_laws::seated(after.steps).to_multiset() == crate::layout_laws::seated(
            before.steps,
        ).to_multiset().add(zones[x].members.to_multiset()),
    ensures
        are_at_home(after.steps, zones),
{
    let n = zones.len();
    let q = roots(after.steps, n);
    assert forall|s: int| 0 <= s < after.steps.len() implies (#[trigger] after.steps[s]
        matches LayoutStep::Seat { pane: p, member } ==> p < q.len() && 0 <= q[p as int]
        < zones.len() && zones[q[p as int]].members.contains(member)) by {
        if let LayoutStep::Seat { pane: p, member } = after.steps[s] {
            if s < before.steps.len() {
                assert(after.steps.take(before.steps.len() as int)[s] == before.steps[s]);
                assert(roots(before.steps, n)[p as int] == q[p as int]);
            } else {
                let k = before.steps.len() as int;
                lemma_seated_added(after.steps, k, s);
                assert(after.steps.take(k) == before.steps);
                let a = crate::layout_laws::seated(before.steps);
                let b = crate::layout_laws::seated(after.steps);
                lemma_added_are_members(a, b, b.skip(a.len() as int), zones[x].members, member);
            }
        }
    }
}

proof fn lemma_added_are_members(
    a: Seq<usize>,
    b: Seq<usize>,
    added: Seq<usize>,
    members: Seq<usize>,
    x: usize,
)
    requires
        a.len() <= b.len(),
        b.take(a.len() as int) == a,
        added == b.skip(a.len() as int),
        b.to_multiset() == a.to_multiset().add(members.to_multiset()),
        added.contains(x),
    ensures
        members.contains(x),
{
    broadcast use vstd::seq_lib::group_to_multiset_ensures;
    broadcast use vstd::multiset::group_multiset_axioms;

    assert(b =~= a + added);
    vstd::seq_lib::lemma_multiset_commutative(a, added);
    assert(b.to_multiset() =~= a.to_multiset().add(added.to_multiset()));
    assert(added.to_multiset().count(x) > 0);
    assert(a.to_multiset().add(members.to_multiset()).count(x) == a.to_multiset().count(x)
        + members.to_multiset().count(x));
    assert(a.to_multiset().add(added.to_multiset()).count(x) == a.to_multiset().count(x)
        + added.to_multiset().count(x));
}

/// Every member sits in the column of a zone that they belong to: whatever
/// pane a layout gives to a member was split off, over however many splits,
/// from the column of that zone.
pub proof fn law_members_sit_in_their_zones(
    ms: Seq<MemberInstance>,
    config: Option<LayoutConfig>,
    zones: Seq<ZoneView>,
    s: int,
)
    requires
        ms.len() != 1,
        ms.len() <= layout::MAX_MEMBERS,
        zones == layout::team_zones(ms, config),
        0 <= s < layout::team_steps(ms, config).len(),
    ensures
        layout::team_steps(ms, config)[s] matches LayoutStep::Seat { pane, member } ==> {
            let q = roots(layout::team_steps(ms, config), zones.len());
            &&& pane < q.len()
            &&& 0 <= q[pane as int] < zones.len()
            &&& zones[q[pane as int]].members.contains(member)
        },
{
    if zones.len() > 0 {
        crate::layout_laws::lemma_placed_in_team(ms, config);
        crate::layout_laws::lemma_no_zone_is_empty(ms, config);
        crate::layout_laws::lemma_zones_no_more_than_placed(zones);
        let n = zones.len() as int;
        lemma_first_roots(layout::widths(zones), zones.len(), n);
        let start = layout::draw_columns(layout::blank(), 0, layout::widths(zones), n);
        assert(zones.take(n) =~= zones);
        lemma_zones_at_home(ms, start, zones, n);
        assert(are_at_home(layout::team_steps(ms, config), zones));
    }
}

proof fn lemma_first_roots(weights: Seq<u32>, n: nat, upto: int)
    requires
        1 <= upto <= n,
    ensures
        ({
            let d = layout::draw_columns(layout::blank(), 0, weights, upto);
            &&& roots(d.steps, n).len() == upto
            &&& d.last == upto - 1
            &&& forall|k: int| 0 <= k < upto ==> #[trigger] roots(d.steps, n)[k] == k
            &&& crate::layout_laws::seated(d.steps).len() == 0
            &&& forall|s: int| 0 <= s < d.steps.len() ==> #[trigger] d.steps[s] is SplitRight
        }),
    decreases upto,
{
    if upto > 1 {
        lemma_first_roots(weights, n, upto - 1);
        let before = layout::draw_columns(layout::blank(), 0, weights, upto - 1);
        let after = layout::draw_columns(layout::blank(), 0, weights, upto);
        lemma_roots_push(before.steps, after.steps.last(), n);
        assert(after.steps == before.steps.push(after.steps.last()));
        assert(after.steps.drop_last() =~= before.steps);
    }
}

/// Everybody but the user gets a pane, in the order of the team, and the panes
/// are planned for them alone.
pub proof fn law_everybody_but_the_user_has_a_pane(members: Seq<MemberInstance>)
    ensures
        ({
            let shown = layout::pane_members(members);
            &&& forall|k: int|
                0 <= k < shown.len() ==> (#[trigger] shown[k]).role_type != RoleType::User
                    && members.contains(shown[k])
            &&& forall|i: int|
                0 <= i < members.len() && (#[trigger] members[i]).role_type != RoleType::User
                    ==> shown.contains(members[i])
            &&& (forall|i: int|
                0 <= i < members.len() ==> (#[trigger] members[i]).role_type != RoleType::User)
                ==> shown == members
            &&& layout::member_names(shown).len() == shown.len()
            &&& forall|k: int|
                0 <= k < shown.len() ==> #[trigger] layout::member_names(shown)[k] == shown[k].name@
        }),
    decreases members.len(),
{
    reveal(Seq::filter);
    if members.len() > 0 {
        let front = members.drop_last();
        law_everybody_but_the_user_has_a_pane(front);
        let before = layout::pane_members(front);
        let shown = layout::pane_members(members);
        let last = members[members.len() - 1];
        assert(shown == (if last.role_type != RoleType::User {
            before.push(last)
        } else {
            before
        }));
        assert forall|k: int| 0 <= k < shown.len() implies (#[trigger] shown[k]).role_type
            != RoleType::User && members.contains(shown[k]) by {
            if k < before.len() {
                assert(before[k] == shown[k]);
                let i = choose|i: int| 0 <= i < front.len() && front[i] == before[k];
                assert(members[i] == before[k]);
            } else {
                assert(members[members.len() - 1] == shown[k]);
            }
        }
        assert forall|i: int|
            0 <= i < members.len() && (#[trigger] members[i]).role_type
                != RoleType::User implies shown.contains(members[i]) by {
            if i < front.len() {
                assert(front[i] == members[i]);
                let k = choose|k: int| 0 <= k < before.len() && before[k] == front[i];
                assert(shown[k] == members[i]);
            } else {
                assert(shown[shown.len() - 1] == members[i]);
            }
        }
        if forall|i: int|
            0 <= i < members.len() ==> (#[trigger] members[i]).role_type != RoleType::User {
            assert forall|i: int| 0 <= i < front.len() implies (#[trigger] front[i]).role_type
                != RoleType::User by {
                assert(front[i] == members[i]);
            }
            assert(members[members.len() - 1].role_type != RoleType::User);
            assert(shown =~= members);
        }
    } else {
        assert(layout::pane_members(members) =~= members);
    }
}

/// A zone is as wide as it is configured, and has as many columns as it is
/// configured to be split into, one where it is not.
pub proof fn law_zones_keep_their_shape(
    ms: Seq<MemberInstance>,
    queue: Seq<usize>,
    zones: Seq<ZoneDef>,
    i: int,
)
    requires
        0 <= i < zones.len(),
    ensures
        ({
            let filled = layout::fill_zones(ms, queue, zones).0;
            &&& filled.len() == zones.len()
            &&& filled[i].width_pct == zones[i].width_pct
            &&& (zones[i].split matches Some(s) && s.horizontal > 0)
                ==> filled[i].horizontal_columns == zones[i].split->Some_0.horizontal
            &&& (zones[i].split is None || zones[i].split->Some_0.horizontal == 0)
                ==> filled[i].horizontal_columns == 1
        }),
    decreases zones.len(),
{
    let front = zones.drop_last();
    let before = layout::fill_zones(ms, queue, front).0;
    if i < front.len() {
        law_zones_keep_their_shape(ms, queue, front, i);
    } else if front.len() > 0 {
        law_zones_keep_their_shape(ms, queue, front, 0);
    }
    assert(before.len() == front.len());
}

/// Whoever is in one group is shown in as many columns as asked for, not more
/// than there are members, and at least in one.
pub proof fn law_columns_are_as_many_as_asked(members: Seq<usize>, asked: nat)
    requires
        members.len() > 0,
    ensures
        ({
            let n = layout::columns_of(members, asked).len();
            &&& 1 <= asked <= members.len() ==> n == asked
            &&& asked > members.len() ==> n == members.len()
            &&& asked == 0 ==> n == 1
        }),
{
}

// ---------------------------------------------------------------------------
// Whom a zone takes

proof fn lemma_add_once(ms: Seq<MemberInstance>, chosen: Seq<usize>, i: usize, x: usize)
    ensures
        layout::name_taken(ms, layout::add_once(ms, chosen, i), i),
        layout::name_taken(ms, chosen, x) ==> layout::name_taken(
            ms,
            layout::add_once(ms, chosen, i),
            x,
        ),
{
    let r = layout::add_once(ms, chosen, i);
    if !layout::name_taken(ms, chosen, i) {
        assert(r[r.len() - 1] == i);
        assert(ms[r[r.len() - 1] as int].name@ == ms[i as int].name@);
    }
    if layout::name_taken(ms, chosen, x) {
        let k = choose|k: int|
            0 <= k < chosen.len() && ms[#[trigger] chosen[k] as int].name@ == ms[x as int].name@;
        assert(r[k] == chosen[k]);
    }
}

/// The member reports to this one.
pub open spec fn reports_to(ms: Seq<MemberInstance>, i: usize, boss: usize) -> bool {
    ms[i as int].reports_to matches Some(n) && n@ == ms[boss as int].name@
}

proof fn lemma_add_reports(
    ms: Seq<MemberInstance>,
    queue: Seq<usize>,
    boss: usize,
    chosen: Seq<usize>,
    x: usize,
)
    ensures
        ({
            let r = layout::add_reports(ms, queue, boss, chosen);
            &&& layout::name_taken(ms, chosen, x) ==> layout::name_taken(ms, r, x)
            &&& queue.contains(x) && reports_to(ms, x, boss) ==> layout::name_taken(ms, r, x)
            &&& r.contains(x) ==> chosen.contains(x) || (queue.contains(x) && reports_to(
                ms,
                x,
                boss,
            ))
        }),
    decreases queue.len(),
{
    if queue.len() > 0 {
        let front = queue.drop_last();
        let last = queue[queue.len() - 1];
        lemma_add_reports(ms, front, boss, chosen, x);
        let rest = layout::add_reports(ms, front, boss, chosen);
        let r = layout::add_reports(ms, queue, boss, chosen);
        lemma_add_once(ms, rest, last, x);
        if queue.contains(x) {
            let k = choose|k: int| 0 <= k < queue.len() && queue[k] == x;
            if k < front.len() {
                assert(front[k] == x);
            }
        }
        if front.contains(x) {
            let k = choose|k: int| 0 <= k < front.len() && front[k] == x;
            assert(queue[k] == x);
        }
        if r.contains(x) && !rest.contains(x) {
            let k = choose|k: int| 0 <= k < r.len() && r[k] == x;
            if k < rest.len() {
                assert(rest[k] == x);
            }
            assert(x == last);
        }
    }
}

/// The zone bears the name of the member or of its role.
pub open spec fn is_named(ms: Seq<MemberInstance>, zone: Seq<char>, i: usize) -> bool {
    ms[i as int].name@ == zone || ms[i as int].role_name@ == zone
}

proof fn lemma_choose_named(
    ms: Seq<MemberInstance>,
    queue: Seq<usize>,
    zone: Seq<char>,
    upto: int,
    x: usize,
    boss: usize,
)
    requires
        0 <= upto <= queue.len(),
    ensures
        ({
            let r = layout::choose_named(ms, queue, zone, upto);
            &&& queue.take(upto).contains(x) && is_named(ms, zone, x) ==> layout::name_taken(
                ms,
                r,
                x,
            )
            &&& queue.take(upto).contains(boss) && is_named(ms, zone, boss)
                && ms[boss as int].role_type == RoleType::Manager && queue.contains(x)
                && reports_to(ms, x, boss) ==> layout::name_taken(ms, r, x)
            &&& r.contains(x) ==> queue.contains(x) && (is_named(ms, zone, x) || exists|b: usize|
                #[trigger] queue.contains(b) && is_named(ms, zone, b) && ms[b as int].role_type
                    == RoleType::Manager && reports_to(ms, x, b))
        }),
    decreases upto,
{
    if upto > 0 {
        lemma_choose_named(ms, queue, zone, upto - 1, x, boss);
        let before = layout::choose_named(ms, queue, zone, upto - 1);
        let r = layout::choose_named(ms, queue, zone, upto);
        let i = queue[upto - 1];
        let with = layout::add_once(ms, before, i);
        lemma_add_once(ms, before, i, x);
        lemma_add_reports(ms, queue, i, with, x);
        lemma_add_reports(ms, queue, i, with, i);
        assert(queue.contains(i));
        if queue.take(upto).contains(x) {
            let k = choose|k: int| 0 <= k < upto && queue.take(upto)[k] == x;
            if k < upto - 1 {
                assert(queue.take(upto - 1)[k] == x);
            }
        }
        if queue.take(upto).contains(boss) {
            let k = choose|k: int| 0 <= k < upto && queue.take(upto)[k] == boss;
            if k < upto - 1 {
                assert(queue.take(upto - 1)[k] == boss);
            }
        }
        if with.contains(x) && !before.contains(x) {
            let k = choose|k: int| 0 <= k < with.len() && with[k] == x;
            if k < before.len() {
                assert(before[k] == x);
            }
            assert(x == i);
        }
    }
}

/// A zone that bears the name of a member, or of a role, takes all such members
/// and, with a manager, all who report to that manager, each name once, and
/// nobody else; who is left is everybody whose name was not taken.
pub proof fn law_zones_take_whom_they_name(
    ms: Seq<MemberInstance>,
    queue: Seq<usize>,
    zone: ZoneDef,
    x: usize,
    boss: usize,
)
    requires
        exists|k: int| 0 <= k < queue.len() && is_named(ms, zone.name@, #[trigger] queue[k]),
        queue.no_duplicates(),
    ensures
        ({
            let t = layout::zone_takes(ms, queue, zone);
            let seated = exists|j: int|
                0 <= j < t.taken.len() && ms[#[trigger] t.taken[j] as int].name@ == ms[x as int].name@;
            &&& queue.contains(x) && is_named(ms, zone.name@, x) ==> seated
            &&& queue.contains(boss) && is_named(ms, zone.name@, boss)
                && ms[boss as int].role_type == RoleType::Manager && queue.contains(x)
                && reports_to(ms, x, boss) ==> seated
            &&& t.taken.contains(x) ==> queue.contains(x) && (is_named(ms, zone.name@, x)
                || exists|b: usize| #[trigger]
                queue.contains(b) && is_named(ms, zone.name@, b) && ms[b as int].role_type
                    == RoleType::Manager && reports_to(ms, x, b))
            &&& t.left.contains(x) <==> queue.contains(x) && !seated
        }),
{
    let n = queue.len() as int;
    let k = choose|k: int| 0 <= k < queue.len() && is_named(ms, zone.name@, #[trigger] queue[k]);
    assert(layout::is_named_by(ms, zone.name@, queue[k]));
    let t = layout::zone_takes(ms, queue, zone);
    let named = layout::choose_named(ms, queue, zone.name@, n);
    assert(t.taken == named);
    assert(queue.take(n) =~= queue);
    lemma_choose_named(ms, queue, zone.name@, n, x, boss);
    crate::layout_laws::lemma_filter_no_dup(queue, |i: usize| !layout::name_taken(ms, named, i));
}

/// A zone that bears no such name collects a role by the words in its name, an
/// architect's before a manager's before an engineer's; without such a word it
/// takes nobody.
pub proof fn law_zones_collect_roles(ms: Seq<MemberInstance>, queue: Seq<usize>, zone: ZoneDef)
    requires
        forall|k: int| 0 <= k < queue.len() ==> !is_named(ms, zone.name@, #[trigger] queue[k]),
    ensures
        ({
            let t = layout::zone_takes(ms, queue, zone);
            let limit = match zone.split {
                Some(s) => Some(s.horizontal),
                None => None,
            };
            let architect = text::contains(zone.name@, "architect"@);
            let manager = text::contains(zone.name@, "manager"@);
            let engineer = text::contains(zone.name@, "engineer"@);
            &&& architect ==> t == layout::take_role(ms, queue, RoleType::Architect, limit)
            &&& !architect && manager ==> t == layout::take_role(
                ms,
                queue,
                RoleType::Manager,
                limit,
            )
            &&& !architect && !manager && engineer ==> t == layout::take_role(
                ms,
                queue,
                RoleType::Engineer,
                limit,
            )
            &&& !architect && !manager && !engineer ==> t.taken.len() == 0 && t.left == queue
        }),
{
    assert forall|k: int| 0 <= k < queue.len() implies !layout::is_named_by(
        ms,
        zone.name@,
        #[trigger] queue[k],
    ) by {
        assert(!is_named(ms, zone.name@, queue[k]));
    }
}

/// Of a role, the first members are taken, up to the limit where there is one;
/// all others are left.
pub proof fn law_first_members_of_a_role_are_taken(
    ms: Seq<MemberInstance>,
    queue: Seq<usize>,
    role: RoleType,
    limit: Option<u32>,
    x: usize,
)
    ensures
        ({
            let t = layout::take_role(ms, queue, role, limit);
            let full = limit matches Some(n) && t.taken.len() >= n;
            &&& limit matches Some(n) ==> t.taken.len() <= n
            &&& t.taken.contains(x) ==> queue.contains(x) && ms[x as int].role_type == role
            &&& t.left.contains(x) ==> queue.contains(x) && (ms[x as int].role_type != role
                || full)
            &&& queue.contains(x) ==> t.taken.contains(x) || t.left.contains(x)
            &&& t.taken.len() + t.left.len() == queue.len()
        }),
    decreases queue.len(),
{
    if queue.len() > 0 {
        let front = queue.drop_last();
        let last = queue[queue.len() - 1];
        law_first_members_of_a_role_are_taken(ms, front, role, limit, x);
        let before = layout::take_role(ms, front, role, limit);
        let t = layout::take_role(ms, queue, role, limit);
        if t.taken.contains(x) && !before.taken.contains(x) {
            let k = choose|k: int| 0 <= k < t.taken.len() && t.taken[k] == x;
            if k < before.taken.len() {
                assert(before.taken[k] == x);
            }
            assert(x == last);
        }
        if t.left.contains(x) && !before.left.contains(x) {
            let k = choose|k: int| 0 <= k < t.left.len() && t.left[k] == x;
            if k < before.left.len() {
                assert(before.left[k] == x);
            }
            assert(x == last);
        }
        if before.taken.contains(x) {
            let k = choose|k: int| 0 <= k < before.taken.len() && before.taken[k] == x;
            assert(t.taken[k] == x);
        }
        if before.left.contains(x) {
            let k = choose|k: int| 0 <= k < before.left.len() && before.left[k] == x;
            assert(t.left[k] == x);
        }
        if queue.contains(x) {
            let k = choose|k: int| 0 <= k < queue.len() && queue[k] == x;
            if k < front.len() {
                assert(front[k] == x);
            } else {
                assert(t.taken.len() > 0 && t.taken[t.taken.len() - 1] == x || t.left[t.left.len()
                    - 1] == x);
            }
        }
        if front.contains(x) {
            let k = choose|k: int| 0 <= k < front.len() && front[k] == x;
            assert(queue[k] == x);
        }
        assert(queue[queue.len() - 1] == last);
    }
}

} // verus!
