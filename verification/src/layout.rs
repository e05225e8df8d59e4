//! How the panes of a team are laid out.
//!
//! Zones are columns of the window. The members of a zone are stacked; a zone
//! of engineers is first divided by the managers they report to, and any
//! other zone into as many columns as its definition asks for. Members are
//! named by their position in the list that the layout is built for, and
//! panes by the order in which they are created, the first being pane 0.

use vstd::prelude::*;
use vstd::string::*;

use crate::paths;
use crate::ratio;
use crate::ratio::{clamped, percent_of};
use crate::team::{MemberInstance, RoleType};
use crate::text;
use crate::text::{chars_of, copy, has, replaced_char, same};

verus! {

/// Share of the window that the orchestrator's pane gets, in percent.
pub const ORCHESTRATOR_PANE_WIDTH_PCT: u32 = 20;

/// The largest team whose shares can be counted in percent.
pub const MAX_MEMBERS: usize = 42_949_672;

/// How much of the runtime surface a team shows.
#[derive(Clone, Copy, Debug, PartialEq, Eq, Structural)]
pub enum WorkflowMode {
    Legacy,
    Hybrid,
    WorkflowFirst,
}

/// Where the orchestrator's pane goes.
#[derive(Clone, Copy, Debug, PartialEq, Eq, Structural)]
pub enum OrchestratorPosition {
    Bottom,
    Left,
}

/// How a zone is split: into how many columns.
#[derive(Clone, Copy, Debug, PartialEq, Eq, Structural)]
pub struct SplitDef {
    pub horizontal: u32,
}

/// A zone as it is configured.
#[derive(Debug)]
pub struct ZoneDef {
    pub name: String,
    pub width_pct: u32,
    pub split: Option<SplitDef>,
}

/// The configured zones.
#[derive(Debug)]
pub struct LayoutConfig {
    pub zones: Vec<ZoneDef>,
}

/// A zone with its members.
#[derive(Debug)]
pub struct ZonePlan {
    pub width_pct: u32,
    pub members: Vec<usize>,
    pub horizontal_columns: usize,
}

/// A zone as contracts see it.
pub struct ZoneView {
    pub width_pct: u32,
    pub members: Seq<usize>,
    pub horizontal_columns: usize,
}

impl View for ZonePlan {
    type V = ZoneView;

    open spec fn view(&self) -> ZoneView {
        ZoneView {
            width_pct: self.width_pct,
            members: self.members@,
            horizontal_columns: self.horizontal_columns,
        }
    }
}

/// The views of a list of zones.
pub open spec fn zone_views(v: Seq<ZonePlan>) -> Seq<ZoneView> {
    Seq::new(v.len(), |i: int| v[i]@)
}

/// Every position is one of a list of `n` members.
pub open spec fn in_range(positions: Seq<usize>, n: nat) -> bool {
    forall|i: int| 0 <= i < positions.len() ==> (#[trigger] positions[i]) < n
}

// ---------------------------------------------------------------------------
// The orchestrator's pane

/// The orchestrator is shown where the mode has a runtime surface and the
/// pane is wanted.
pub fn should_launch_orchestrator_pane(mode: WorkflowMode, orchestrator_pane: bool) -> (r: bool)
    ensures
        r == (mode != WorkflowMode::Legacy && orchestrator_pane),
{
    mode != WorkflowMode::Legacy && orchestrator_pane
}

/// A single quote inside single quotes, as a shell takes it.
pub fn shell_single_quote(value: &str) -> (r: String)
    ensures
        r@ == text::replace_char(value@, '\'', "'\"'\"'"@),
{
    replaced_char(value, '\'', "'\"'\"'")
}

/// The command that keeps showing the orchestrator's log.
pub open spec fn tail_command_text(log_path: Seq<char>) -> Seq<char> {
    let quoted = text::replace_char(log_path, '\'', "'\"'\"'"@);
    "bash -lc 'touch "@ + quoted + "; exec tail -n 200 -F "@ + quoted + "'"@
}

/// The command that keeps showing the orchestrator's log.
pub fn orchestrator_tail_command(log_path: &str) -> (r: String)
    ensures
        r@ == tail_command_text(log_path@),
{
    let quoted: String = shell_single_quote(log_path);
    copy("bash -lc 'touch ").concat(quoted.as_str()).concat("; exec tail -n 200 -F ").concat(
        quoted.as_str(),
    ).concat("'")
}

/// How the orchestrator's pane is split off the initial one.
#[derive(Clone, Copy, Debug, PartialEq, Eq, Structural)]
pub struct OrchestratorSplit {
    /// The new pane goes to the right; otherwise below.
    pub to_the_right: bool,
    /// The new pane's share, in percent.
    pub pct: u32,
    /// The new pane is for the agents; otherwise for the orchestrator.
    pub new_pane_is_for_agents: bool,
}

/// Splits the initial pane between orchestrator and agents: on the left the
/// orchestrator keeps the initial pane, at the bottom it gets the new one.
pub fn launch_orchestrator_pane(position: OrchestratorPosition) -> (r: OrchestratorSplit)
    ensures
        position == OrchestratorPosition::Left ==> r == (OrchestratorSplit {
            to_the_right: true,
            pct: 80,
            new_pane_is_for_agents: true,
        }),
        position == OrchestratorPosition::Bottom ==> r == (OrchestratorSplit {
            to_the_right: false,
            pct: 20,
            new_pane_is_for_agents: false,
        }),
{
    match position {
        OrchestratorPosition::Left => OrchestratorSplit {
            to_the_right: true,
            pct: 100 - ORCHESTRATOR_PANE_WIDTH_PCT,
            new_pane_is_for_agents: true,
        },
        OrchestratorPosition::Bottom => OrchestratorSplit {
            to_the_right: false,
            pct: ORCHESTRATOR_PANE_WIDTH_PCT,
            new_pane_is_for_agents: false,
        },
    }
}

// ---------------------------------------------------------------------------
// Zones from a configuration

/// A member of this name is among the chosen.
pub open spec fn name_taken(ms: Seq<MemberInstance>, chosen: Seq<usize>, i: usize) -> bool {
    exists|k: int|
        0 <= k < chosen.len() && ms[#[trigger] chosen[k] as int].name@ == ms[i as int].name@
}

/// The chosen with `i` among them, unless its name is taken.
pub open spec fn add_once(ms: Seq<MemberInstance>, chosen: Seq<usize>, i: usize) -> Seq<usize> {
    if name_taken(ms, chosen, i) {
        chosen
    } else {
        chosen.push(i)
    }
}

/// The chosen with the reports of `boss` in `queue` among them.
pub open spec fn add_reports(
    ms: Seq<MemberInstance>,
    queue: Seq<usize>,
    boss: usize,
    chosen: Seq<usize>,
) -> Seq<usize>
    decreases queue.len(),
{
    if queue.len() == 0 {
        chosen
    } else {
        let rest = add_reports(ms, queue.drop_last(), boss, chosen);
        if paths::opt_view(ms[queue.last() as int].reports_to) == Some(ms[boss as int].name@) {
            add_once(ms, rest, queue.last())
        } else {
            rest
        }
    }
}

/// The chosen with `i` among them, and with it the reports of a manager.
pub open spec fn add_with_reports(
    ms: Seq<MemberInstance>,
    queue: Seq<usize>,
    chosen: Seq<usize>,
    i: usize,
) -> Seq<usize> {
    let with = add_once(ms, chosen, i);
    if ms[i as int].role_type == RoleType::Manager {
        add_reports(ms, queue, i, with)
    } else {
        with
    }
}

/// The members that a zone of this name names, by member or by role.
pub open spec fn is_named_by(ms: Seq<MemberInstance>, zone: Seq<char>, i: usize) -> bool {
    ms[i as int].name@ == zone || ms[i as int].role_name@ == zone
}

/// What the first members of `queue` choose for a zone that names members.
pub open spec fn choose_named(
    ms: Seq<MemberInstance>,
    queue: Seq<usize>,
    zone: Seq<char>,
    upto: int,
) -> Seq<usize>
    decreases upto,
{
    if upto <= 0 {
        Seq::empty()
    } else {
        let before = choose_named(ms, queue, zone, upto - 1);
        if is_named_by(ms, zone, queue[upto - 1]) {
            add_with_reports(ms, queue, before, queue[upto - 1])
        } else {
            before
        }
    }
}

/// The role that a zone of this name collects.
pub open spec fn zone_role(zone: Seq<char>) -> Option<RoleType> {
    if text::contains(zone, "architect"@) {
        Some(RoleType::Architect)
    } else if text::contains(zone, "manager"@) {
        Some(RoleType::Manager)
    } else if text::contains(zone, "engineer"@) {
        Some(RoleType::Engineer)
    } else {
        None
    }
}

/// What a zone takes and what it leaves.
pub struct Taken {
    pub taken: Seq<usize>,
    pub left: Seq<usize>,
}

/// The first `limit` members of a role are taken; without a limit, all.
pub open spec fn take_role(
    ms: Seq<MemberInstance>,
    queue: Seq<usize>,
    role: RoleType,
    limit: Option<u32>,
) -> Taken
    decreases queue.len(),
{
    if queue.len() == 0 {
        Taken { taken: Seq::empty(), left: Seq::empty() }
    } else {
        let rest = take_role(ms, queue.drop_last(), role, limit);
        let full = limit matches Some(n) && rest.taken.len() >= n;
        if !full && ms[queue.last() as int].role_type == role {
            Taken { taken: rest.taken.push(queue.last()), left: rest.left }
        } else {
            Taken { taken: rest.taken, left: rest.left.push(queue.last()) }
        }
    }
}

/// The number of columns that a zone asks for as a limit.
pub open spec fn zone_limit(zone: ZoneDef) -> Option<u32> {
    match zone.split {
        Some(s) => Some(s.horizontal),
        None => None,
    }
}

/// What one zone takes from `queue`: the members that it names with their
/// reports, else the members of its role, else nothing.
pub open spec fn zone_takes(
    ms: Seq<MemberInstance>,
    queue: Seq<usize>,
    zone: ZoneDef,
) -> Taken {
    let named = choose_named(ms, queue, zone.name@, queue.len() as int);
    if exists|k: int| 0 <= k < queue.len() && is_named_by(ms, zone.name@, #[trigger] queue[k]) {
        Taken { taken: named, left: queue.filter(|i: usize| !name_taken(ms, named, i)) }
    } else {
        match zone_role(zone.name@) {
            Some(role) => take_role(ms, queue, role, zone_limit(zone)),
            None => Taken { taken: Seq::empty(), left: queue },
        }
    }
}

/// The number of columns that a zone is split into, at least one.
pub open spec fn zone_columns(zone: ZoneDef) -> usize {
    match zone.split {
        Some(s) => if s.horizontal == 0 {
            1
        } else {
            s.horizontal as usize
        },
        None => 1,
    }
}

/// The first zones with what they take, and who is left then.
pub open spec fn fill_zones(
    ms: Seq<MemberInstance>,
    queue: Seq<usize>,
    zones: Seq<ZoneDef>,
) -> (Seq<ZoneView>, Seq<usize>)
    decreases zones.len(),
{
    if zones.len() == 0 {
        (Seq::empty(), queue)
    } else {
        let (before, left) = fill_zones(ms, queue, zones.drop_last());
        let t = zone_takes(ms, left, zones.last());
        (
            before.push(
                ZoneView {
                    width_pct: zones.last().width_pct,
                    members: t.taken,
                    horizontal_columns: zone_columns(zones.last()),
                },
            ),
            t.left,
        )
    }
}

/// All positions of a list of `n` members.
pub open spec fn everyone(n: nat) -> Seq<usize> {
    Seq::new(n, |i: int| i as usize)
}

/// The last zone takes in whoever is left.
pub open spec fn with_rest(zones: Seq<ZoneView>, left: Seq<usize>) -> Seq<ZoneView> {
    if zones.len() == 0 {
        zones
    } else {
        zones.drop_last().push(
            ZoneView { members: zones.last().members + left, ..zones.last() },
        )
    }
}

/// A zone with somebody in it.
pub open spec fn is_inhabited(zone: ZoneView) -> bool {
    zone.members.len() > 0
}

/// The zones of a configuration: each takes its members in turn, the last one
/// takes in whoever is left, and empty zones are dropped.
pub open spec fn zones_from_config(ms: Seq<MemberInstance>, zones: Seq<ZoneDef>) -> Seq<ZoneView> {
    let (filled, left) = fill_zones(ms, everyone(ms.len()), zones);
    with_rest(filled, left).filter(|z: ZoneView| is_inhabited(z))
}

fn is_name_taken(ms: &Vec<MemberInstance>, chosen: &Vec<usize>, i: usize) -> (r: bool)
    requires
        i < ms@.len(),
        in_range(chosen@, ms@.len()),
    ensures
        r == name_taken(ms@, chosen@, i),
{
    let mut k: usize = 0;
    while k < chosen.len()
        invariant
            k <= chosen@.len(),
            i < ms@.len(),
            in_range(chosen@, ms@.len()),
            forall|j: int|
                0 <= j < k ==> ms@[#[trigger] chosen@[j] as int].name@ != ms@[i as int].name@,
        decreases chosen@.len() - k,
    {
        let c: usize = chosen[k];
        if same(ms[c].name.as_str(), ms[i].name.as_str()) {
            return true;
        }
        k += 1;
    }
    false
}

fn choose_once(ms: &Vec<MemberInstance>, chosen: &mut Vec<usize>, i: usize)
    requires
        i < ms@.len(),
        in_range(old(chosen)@, ms@.len()),
    ensures
        final(chosen)@ == add_once(ms@, old(chosen)@, i),
        in_range(final(chosen)@, ms@.len()),
{
    if !is_name_taken(ms, chosen, i) {
        chosen.push(i);
    }
}

fn reports_to(ms: &Vec<MemberInstance>, i: usize, boss: usize) -> (r: bool)
    requires
        i < ms@.len(),
        boss < ms@.len(),
    ensures
        r == (paths::opt_view(ms@[i as int].reports_to) == Some(ms@[boss as int].name@)),
{
    match &ms[i].reports_to {
        Some(name) => same(name.as_str(), ms[boss].name.as_str()),
        None => false,
    }
}

fn choose_reports(ms: &Vec<MemberInstance>, queue: &Vec<usize>, boss: usize, chosen: &mut Vec<usize>)
    requires
        boss < ms@.len(),
        in_range(queue@, ms@.len()),
        in_range(old(chosen)@, ms@.len()),
    ensures
        final(chosen)@ == add_reports(ms@, queue@, boss, old(chosen)@),
        in_range(final(chosen)@, ms@.len()),
{
    let ghost start = chosen@;
    let mut k: usize = 0;
    while k < queue.len()
        invariant
            k <= queue@.len(),
            boss < ms@.len(),
            in_range(queue@, ms@.len()),
            in_range(chosen@, ms@.len()),
            chosen@ == add_reports(ms@, queue@.take(k as int), boss, start),
        decreases queue@.len() - k,
    {
        assert(queue@.take(k + 1).drop_last() == queue@.take(k as int));
        let i: usize = queue[k];
        if reports_to(ms, i, boss) {
            choose_once(ms, chosen, i);
        }
        k += 1;
    }
    assert(queue@.take(k as int) == queue@);
}

/// The members that a zone names, with the reports of the managers among
/// them; nothing where it names nobody.
fn choose_by_name(ms: &Vec<MemberInstance>, queue: &Vec<usize>, zone: &str) -> (r: (bool, Vec<usize>))
    requires
        in_range(queue@, ms@.len()),
    ensures
        r.0 == exists|k: int|
            0 <= k < queue@.len() && is_named_by(ms@, zone@, #[trigger] queue@[k]),
        r.1@ == choose_named(ms@, queue@, zone@, queue@.len() as int),
        in_range(r.1@, ms@.len()),
{
    let mut chosen: Vec<usize> = Vec::new();
    let mut any: bool = false;
    let mut k: usize = 0;
    while k < queue.len()
        invariant
            k <= queue@.len(),
            in_range(queue@, ms@.len()),
            in_range(chosen@, ms@.len()),
            chosen@ == choose_named(ms@, queue@, zone@, k as int),
            any == exists|j: int| 0 <= j < k && is_named_by(ms@, zone@, #[trigger] queue@[j]),
        decreases queue@.len() - k,
    {
        let i: usize = queue[k];
        if same(ms[i].name.as_str(), zone) || same(ms[i].role_name.as_str(), zone) {
            assert(is_named_by(ms@, zone@, queue@[k as int]));
            any = true;
            choose_once(ms, &mut chosen, i);
            if ms[i].role_type == RoleType::Manager {
                choose_reports(ms, queue, i, &mut chosen);
            }
        }
        k += 1;
    }
    (any, chosen)
}

fn leave_others(ms: &Vec<MemberInstance>, queue: &Vec<usize>, chosen: &Vec<usize>) -> (r: Vec<usize>)
    requires
        in_range(queue@, ms@.len()),
        in_range(chosen@, ms@.len()),
    ensures
        r@ == queue@.filter(|i: usize| !name_taken(ms@, chosen@, i)),
        in_range(r@, ms@.len()),
{
    let ghost keep = |i: usize| !name_taken(ms@, chosen@, i);
    let mut out: Vec<usize> = Vec::new();
    let mut k: usize = 0;
    assert(queue@.take(0).filter(keep) == out@) by {
        reveal(Seq::filter);
    }
    while k < queue.len()
        invariant
            k <= queue@.len(),
            in_range(queue@, ms@.len()),
            in_range(chosen@, ms@.len()),
            in_range(out@, ms@.len()),
            keep == (|i: usize| !name_taken(ms@, chosen@, i)),
            out@ == queue@.take(k as int).filter(keep),
        decreases queue@.len() - k,
    {
        proof {
            reveal(Seq::filter);
            assert(queue@.take(k + 1).drop_last() == queue@.take(k as int));
        }
        let i: usize = queue[k];
        if !is_name_taken(ms, chosen, i) {
            out.push(i);
        }
        k += 1;
    }
    assert(queue@.take(k as int) == queue@);
    out
}

fn take_by_role(
    ms: &Vec<MemberInstance>,
    queue: &Vec<usize>,
    role: RoleType,
    limit: Option<u32>,
) -> (r: (Vec<usize>, Vec<usize>))
    requires
        in_range(queue@, ms@.len()),
    ensures
        r.0@ == take_role(ms@, queue@, role, limit).taken,
        r.1@ == take_role(ms@, queue@, role, limit).left,
        in_range(r.0@, ms@.len()),
        in_range(r.1@, ms@.len()),
{
    let mut taken: Vec<usize> = Vec::new();
    let mut left: Vec<usize> = Vec::new();
    let mut k: usize = 0;
    while k < queue.len()
        invariant
            k <= queue@.len(),
            in_range(queue@, ms@.len()),
            in_range(taken@, ms@.len()),
            in_range(left@, ms@.len()),
            taken@ == take_role(ms@, queue@.take(k as int), role, limit).taken,
            left@ == take_role(ms@, queue@.take(k as int), role, limit).left,
        decreases queue@.len() - k,
    {
        assert(queue@.take(k + 1).drop_last() == queue@.take(k as int));
        let i: usize = queue[k];
        let full: bool = match limit {
            Some(n) => taken.len() >= n as usize,
            None => false,
        };
        if !full && ms[i].role_type == role {
            taken.push(i);
        } else {
            left.push(i);
        }
        k += 1;
    }
    assert(queue@.take(k as int) == queue@);
    (taken, left)
}

fn role_of_zone(zone: &str) -> (r: Option<RoleType>)
    ensures
        r == zone_role(zone@),
{
    let z: Vec<char> = chars_of(zone);
    if has(&z, "architect") {
        Some(RoleType::Architect)
    } else if has(&z, "manager") {
        Some(RoleType::Manager)
    } else if has(&z, "engineer") {
        Some(RoleType::Engineer)
    } else {
        None
    }
}

/// What one zone takes from the queue, and what it leaves.
fn take_for_zone(ms: &Vec<MemberInstance>, queue: Vec<usize>, zone: &ZoneDef) -> (r: (
    Vec<usize>,
    Vec<usize>,
))
    requires
        in_range(queue@, ms@.len()),
    ensures
        r.0@ == zone_takes(ms@, queue@, *zone).taken,
        r.1@ == zone_takes(ms@, queue@, *zone).left,
        in_range(r.0@, ms@.len()),
        in_range(r.1@, ms@.len()),
{
    let (any, named) = choose_by_name(ms, &queue, zone.name.as_str());
    if any {
        let left: Vec<usize> = leave_others(ms, &queue, &named);
        return (named, left);
    }
    match role_of_zone(zone.name.as_str()) {
        Some(role) => {
            let limit: Option<u32> = match zone.split {
                Some(s) => Some(s.horizontal),
                None => None,
            };
            take_by_role(ms, &queue, role, limit)
        },
        None => (Vec::new(), queue),
    }
}

fn columns_of_zone(zone: &ZoneDef) -> (r: usize)
    ensures
        r == zone_columns(*zone),
{
    match zone.split {
        Some(s) => if s.horizontal == 0 {
            1
        } else {
            s.horizontal as usize
        },
        None => 1,
    }
}

fn all_positions(n: usize) -> (r: Vec<usize>)
    ensures
        r@ == everyone(n as nat),
{
    let mut out: Vec<usize> = Vec::new();
    let mut i: usize = 0;
    while i < n
        invariant
            i <= n,
            out@ == everyone(i as nat),
        decreases n - i,
    {
        out.push(i);
        i += 1;
        assert(everyone(i as nat) == everyone((i - 1) as nat).push((i - 1) as usize));
    }
    out
}

fn keep_inhabited(zones: Vec<ZonePlan>) -> (r: Vec<ZonePlan>)
    ensures
        zone_views(r@) == zone_views(zones@).filter(|z: ZoneView| is_inhabited(z)),
{
    let ghost all = zone_views(zones@);
    let ghost keep = |z: ZoneView| is_inhabited(z);
    let mut rest: Vec<ZonePlan> = zones;
    let mut out: Vec<ZonePlan> = Vec::new();
    let n: usize = rest.len();
    let mut k: usize = 0;
    assert(zone_views(out@) == all.take(0).filter(keep)) by {
        reveal(Seq::filter);
    }
    assert(zone_views(rest@) == all.skip(0));
    while k < n
        invariant
            k <= n,
            n == all.len(),
            keep == (|z: ZoneView| is_inhabited(z)),
            zone_views(rest@) == all.skip(k as int),
            zone_views(out@) == all.take(k as int).filter(keep),
        decreases n - k,
    {
        proof {
            reveal(Seq::filter);
            assert(all.take(k + 1).drop_last() == all.take(k as int));
            assert(rest@.len() == zone_views(rest@).len());
            assert(zone_views(rest@)[0] == all[k as int]);
        }
        let ghost before_rest = rest@;
        let zone: ZonePlan = rest.remove(0);
        assert(zone@ == all[k as int]);
        assert(zone_views(rest@) == all.skip(k + 1)) by {
            assert forall|i: int| 0 <= i < rest@.len() implies zone_views(rest@)[i] == all.skip(
                k + 1,
            )[i] by {
                assert(rest@[i] == before_rest[i + 1]);
                assert(zone_views(before_rest)[i + 1] == all.skip(k as int)[i + 1]);
            }
        }
        if zone.members.len() > 0 {
            let ghost before = out@;
            out.push(zone);
            assert(zone_views(out@) == zone_views(before).push(all[k as int]));
        }
        k += 1;
    }
    assert(all.take(k as int) == all);
    out
}

/// Groups members into the configured zones.
///
/// A zone takes the members that it names, by member or role, together with
/// the reports of the managers among them. A zone that names nobody takes the
/// members of the role that its name contains, up to its number of columns.
/// Whoever is left goes to the last zone, and empty zones are dropped.
pub fn build_zones_from_config(config: &LayoutConfig, members: &Vec<MemberInstance>) -> (r: Vec<
    ZonePlan,
>)
    ensures
        zone_views(r@) == zones_from_config(members@, config.zones@),
{
    let ghost all = everyone(members@.len());
    let mut queue: Vec<usize> = all_positions(members.len());
    let mut zones: Vec<ZonePlan> = Vec::new();
    let mut k: usize = 0;
    assert(zone_views(zones@) == Seq::<ZoneView>::empty());
    while k < config.zones.len()
        invariant
            k <= config.zones@.len(),
            all == everyone(members@.len()),
            in_range(queue@, members@.len()),
            zone_views(zones@) == fill_zones(members@, all, config.zones@.take(k as int)).0,
            queue@ == fill_zones(members@, all, config.zones@.take(k as int)).1,
        decreases config.zones@.len() - k,
    {
        assert(config.zones@.take(k + 1).drop_last() == config.zones@.take(k as int));
        let zone: &ZoneDef = &config.zones[k];
        let (taken, left) = take_for_zone(members, queue, zone);
        let ghost before = zones@;
        zones.push(
            ZonePlan {
                width_pct: zone.width_pct,
                members: taken,
                horizontal_columns: columns_of_zone(zone),
            },
        );
        assert(zone_views(zones@) == zone_views(before).push(zones@.last()@));
        queue = left;
        k += 1;
    }
    assert(config.zones@.take(k as int) == config.zones@);
    let ghost filled = zone_views(zones@);
    let ghost left = queue@;
    match zones.pop() {
        Some(last) => {
            let ghost front = zones@;
            assert(zone_views(front) == filled.drop_last());
            let mut last: ZonePlan = last;
            assert(last@ == filled.last());
            last.members.append(&mut queue);
            zones.push(last);
            assert(zone_views(zones@) == zone_views(front).push(last@));
            assert(zone_views(zones@) == with_rest(filled, left));
        },
        None => {
            assert(zone_views(zones@) == with_rest(filled, left));
        },
    }
    keep_inhabited(zones)
}

// ---------------------------------------------------------------------------
// Zones by role

/// The positions of the members of a role.
pub open spec fn of_role(ms: Seq<MemberInstance>, role: RoleType) -> Seq<usize> {
    everyone(ms.len()).filter(|i: usize| ms[i as int].role_type == role)
}

/// A share of the window in whole percent, but no less than `least`.
pub open spec fn role_share(count: nat, total: nat, least: u32) -> u32 {
    let pct = ((count * 100) / total) as u32;
    if pct < least {
        least
    } else {
        pct
    }
}

/// The zone of a role, where anybody has it.
pub open spec fn role_zone(ms: Seq<MemberInstance>, role: RoleType, least: u32) -> Seq<ZoneView> {
    let members = of_role(ms, role);
    if members.len() == 0 {
        Seq::empty()
    } else {
        seq![
            ZoneView {
                width_pct: role_share(members.len(), ms.len(), least),
                members,
                horizontal_columns: 1,
            },
        ]
    }
}

/// One zone per role that anybody has: architects, managers, engineers.
pub open spec fn zones_by_role(ms: Seq<MemberInstance>) -> Seq<ZoneView> {
    role_zone(ms, RoleType::Architect, 10) + role_zone(ms, RoleType::Manager, 15) + role_zone(
        ms,
        RoleType::Engineer,
        20,
    )
}

fn positions_of_role(ms: &Vec<MemberInstance>, role: RoleType) -> (r: Vec<usize>)
    ensures
        r@ == of_role(ms@, role),
        r@.len() <= ms@.len(),
{
    let ghost p = |i: usize| ms@[i as int].role_type == role;
    let ghost all = everyone(ms@.len());
    let mut out: Vec<usize> = Vec::new();
    let mut i: usize = 0;
    assert(all.take(0).filter(p) == out@) by {
        reveal(Seq::filter);
    }
    while i < ms.len()
        invariant
            i <= ms@.len(),
            all == everyone(ms@.len()),
            p == (|i: usize| ms@[i as int].role_type == role),
            out@ == all.take(i as int).filter(p),
            out@.len() <= i,
        decreases ms@.len() - i,
    {
        proof {
            reveal(Seq::filter);
            assert(all.take(i + 1).drop_last() == all.take(i as int));
        }
        if ms[i].role_type == role {
            out.push(i);
        }
        i += 1;
    }
    assert(all.take(i as int) == all);
    out
}

fn add_role_zone(zones: &mut Vec<ZonePlan>, ms: &Vec<MemberInstance>, role: RoleType, least: u32)
    requires
        ms@.len() <= MAX_MEMBERS,
    ensures
        zone_views(final(zones)@) == zone_views(old(zones)@) + role_zone(ms@, role, least),
{
    let members: Vec<usize> = positions_of_role(ms, role);
    if members.len() > 0 {
        let count: u32 = members.len() as u32;
        let total: u32 = ms.len() as u32;
        let pct: u32 = (count * 100) / total;
        let width_pct: u32 = if pct < least {
            least
        } else {
            pct
        };
        let ghost before = zones@;
        let zone = ZonePlan { width_pct, members, horizontal_columns: 1 };
        zones.push(zone);
        assert(zone_views(zones@) == zone_views(before) + seq![zone@]);
        assert(zone@.width_pct == role_share(members@.len(), ms@.len(), least));
    } else {
        assert(zone_views(zones@) == zone_views(zones@) + Seq::<ZoneView>::empty());
    }
}

/// Groups members into zones by their role.
pub fn build_zones_auto(members: &Vec<MemberInstance>) -> (r: Vec<ZonePlan>)
    requires
        members@.len() <= MAX_MEMBERS,
    ensures
        zone_views(r@) == zones_by_role(members@),
{
    let mut zones: Vec<ZonePlan> = Vec::new();
    assert(zone_views(zones@) == Seq::<ZoneView>::empty());
    add_role_zone(&mut zones, members, RoleType::Architect, 10);
    assert(zone_views(zones@) == role_zone(members@, RoleType::Architect, 10));
    add_role_zone(&mut zones, members, RoleType::Manager, 15);
    add_role_zone(&mut zones, members, RoleType::Engineer, 20);
    zones
}

// ---------------------------------------------------------------------------
// Groups inside a zone

/// Members of one manager.
pub struct Team {
    pub boss: Seq<char>,
    pub members: Seq<usize>,
}

/// The team of `boss` among `teams`.
pub open spec fn team_index(teams: Seq<Team>, boss: Seq<char>) -> Option<int>
    decreases teams.len(),
{
    if teams.len() == 0 {
        None
    } else {
        match team_index(teams.drop_last(), boss) {
            Some(i) => Some(i),
            None => if teams.last().boss == boss {
                Some(teams.len() - 1)
            } else {
                None
            },
        }
    }
}

/// The manager that a member reports to, nobody standing for the empty name.
pub open spec fn boss_of(ms: Seq<MemberInstance>, i: usize) -> Seq<char> {
    match ms[i as int].reports_to {
        Some(b) => b@,
        None => Seq::empty(),
    }
}

/// The members divided by the manager they report to, the managers in the
/// order in which they first appear.
pub open spec fn teams_of(ms: Seq<MemberInstance>, members: Seq<usize>) -> Seq<Team>
    decreases members.len(),
{
    if members.len() == 0 {
        Seq::empty()
    } else {
        let before = teams_of(ms, members.drop_last());
        let boss = boss_of(ms, members.last());
        match team_index(before, boss) {
            Some(i) => before.update(
                i,
                Team { boss, members: before[i].members.push(members.last()) },
            ),
            None => before.push(Team { boss, members: seq![members.last()] }),
        }
    }
}

/// All members are engineers who report to somebody.
pub open spec fn is_engineer_hierarchy(ms: Seq<MemberInstance>, members: Seq<usize>) -> bool {
    forall|k: int|
        0 <= k < members.len() ==> ms[#[trigger] members[k] as int].role_type == RoleType::Engineer
            && ms[members[k] as int].reports_to is Some
}

/// The groups that a zone falls into by itself.
pub open spec fn subgroups(ms: Seq<MemberInstance>, members: Seq<usize>) -> Seq<Seq<usize>> {
    if is_engineer_hierarchy(ms, members) {
        Seq::new(teams_of(ms, members).len(), |i: int| teams_of(ms, members)[i].members)
    } else {
        seq![members]
    }
}

/// The positions in a list of groups.
pub open spec fn group_views(v: Seq<Vec<usize>>) -> Seq<Seq<usize>> {
    Seq::new(v.len(), |i: int| v[i]@)
}

fn copy_positions(v: &Vec<usize>, from: usize, to: usize) -> (r: Vec<usize>)
    requires
        from <= to <= v@.len(),
    ensures
        r@ == v@.subrange(from as int, to as int),
{
    let mut out: Vec<usize> = Vec::new();
    let mut i: usize = from;
    while i < to
        invariant
            from <= i <= to <= v@.len(),
            out@ == v@.subrange(from as int, i as int),
        decreases to - i,
    {
        out.push(v[i]);
        i += 1;
        assert(v@.subrange(from as int, i as int) == v@.subrange(from as int, i - 1).push(
            v@[i - 1],
        ));
    }
    out
}

fn find_team(bosses: &Vec<String>, boss: &str, Ghost(teams): Ghost<Seq<Team>>) -> (r: Option<usize>)
    requires
        bosses@.len() == teams.len(),
        forall|k: int| 0 <= k < bosses@.len() ==> (#[trigger] bosses@[k])@ == teams[k].boss,
    ensures
        r matches Some(i) ==> team_index(teams, boss@) == Some(i as int) && i < teams.len(),
        r is None ==> team_index(teams, boss@) is None,
{
    let mut k: usize = 0;
    while k < bosses.len()
        invariant
            k <= bosses@.len(),
            bosses@.len() == teams.len(),
            forall|j: int| 0 <= j < bosses@.len() ==> (#[trigger] bosses@[j])@ == teams[j].boss,
            team_index(teams.take(k as int), boss@) is None,
        decreases bosses@.len() - k,
    {
        assert(teams.take(k + 1).drop_last() == teams.take(k as int));
        if same(bosses[k].as_str(), boss) {
            proof {
                lemma_team_index_stays(teams, boss@, k + 1);
            }
            return Some(k);
        }
        k += 1;
    }
    assert(teams.take(k as int) == teams);
    None
}

proof fn lemma_team_index_stays(teams: Seq<Team>, boss: Seq<char>, k: int)
    requires
        0 <= k <= teams.len(),
        team_index(teams.take(k), boss) is Some,
    ensures
        team_index(teams, boss) == team_index(teams.take(k), boss),
    decreases teams.len() - k,
{
    if k < teams.len() {
        assert(teams.take(k + 1).drop_last() == teams.take(k));
        lemma_team_index_stays(teams, boss, k + 1);
    } else {
        assert(teams.take(k) == teams);
    }
}

/// Divides the members of a zone by manager where all are engineers with one;
/// any other zone stays whole.
pub fn split_zone_subgroups(members: &Vec<MemberInstance>, zone_members: &Vec<usize>) -> (r: Vec<
    Vec<usize>,
>)
    requires
        in_range(zone_members@, members@.len()),
    ensures
        group_views(r@) == subgroups(members@, zone_members@),
{
    let mut k: usize = 0;
    while k < zone_members.len()
        invariant
            k <= zone_members@.len(),
            in_range(zone_members@, members@.len()),
            forall|j: int|
                0 <= j < k ==> members@[#[trigger] zone_members@[j] as int].role_type
                    == RoleType::Engineer && members@[zone_members@[j] as int].reports_to is Some,
        decreases zone_members@.len() - k,
    {
        let i: usize = zone_members[k];
        let reports: bool = members[i].reports_to.is_some();
        if !(members[i].role_type == RoleType::Engineer && reports) {
            assert(!is_engineer_hierarchy(members@, zone_members@)) by {
                assert(members@[zone_members@[k as int] as int].role_type != RoleType::Engineer
                    || members@[zone_members@[k as int] as int].reports_to is None);
            }
            let whole: Vec<usize> = copy_positions(zone_members, 0, zone_members.len());
            assert(whole@ == zone_members@);
            let mut out: Vec<Vec<usize>> = Vec::new();
            out.push(whole);
            assert(group_views(out@) == seq![zone_members@]);
            return out;
        }
        k += 1;
    }
    let mut bosses: Vec<String> = Vec::new();
    let mut groups: Vec<Vec<usize>> = Vec::new();
    k = 0;
    while k < zone_members.len()
        invariant
            k <= zone_members@.len(),
            in_range(zone_members@, members@.len()),
            bosses@.len() == groups@.len(),
            teams_of(members@, zone_members@.take(k as int)).len() == groups@.len(),
            forall|j: int|
                0 <= j < groups@.len() ==> (#[trigger] bosses@[j])@ == teams_of(
                    members@,
                    zone_members@.take(k as int),
                )[j].boss,
            forall|j: int|
                0 <= j < groups@.len() ==> (#[trigger] groups@[j])@ == teams_of(
                    members@,
                    zone_members@.take(k as int),
                )[j].members,
        decreases zone_members@.len() - k,
    {
        let ghost teams = teams_of(members@, zone_members@.take(k as int));
        assert(zone_members@.take(k + 1).drop_last() == zone_members@.take(k as int));
        let i: usize = zone_members[k];
        let boss: String = match &members[i].reports_to {
            Some(b) => b.clone(),
            None => String::new(),
        };
        assert(boss@ == boss_of(members@, i));
        match find_team(&bosses, boss.as_str(), Ghost(teams)) {
            Some(at) => {
                let mut group: Vec<usize> = copy_positions(&groups[at], 0, groups[at].len());
                assert(group@ == teams[at as int].members);
                group.push(i);
                groups.set(at, group);
                proof {
                    lemma_team_index_boss(teams, boss@);
                }
            },
            None => {
                let mut group: Vec<usize> = Vec::new();
                group.push(i);
                assert(group@ == seq![i]);
                groups.push(group);
                bosses.push(boss);
            },
        }
        k += 1;
    }
    assert(zone_members@.take(k as int) == zone_members@);
    assert(group_views(groups@) == subgroups(members@, zone_members@));
    groups
}

/// A found team belongs to the manager who was looked for.
pub proof fn lemma_team_index_boss(teams: Seq<Team>, boss: Seq<char>)
    ensures
        team_index(teams, boss) matches Some(i) ==> 0 <= i < teams.len() && teams[i].boss == boss,
    decreases teams.len(),
{
    if teams.len() > 0 {
        lemma_team_index_boss(teams.drop_last(), boss);
    }
}

/// The number of columns that `n` members can fill, up to `desired`.
pub open spec fn column_count(n: nat, desired: nat) -> nat {
    let most = if n == 0 {
        1
    } else {
        n
    };
    if desired < 1 {
        1
    } else if desired > most {
        most
    } else {
        desired
    }
}

/// Where column `k` of `columns` begins: all columns are equally long, except
/// that the first ones take the remainder, one member each.
pub open spec fn column_start(n: nat, columns: nat, k: nat) -> nat {
    k * (n / columns) + (if k < n % columns {
        k
    } else {
        n % columns
    })
}

/// The members in balanced contiguous columns.
pub open spec fn columns_of(members: Seq<usize>, desired: nat) -> Seq<Seq<usize>> {
    let columns = column_count(members.len(), desired);
    Seq::new(
        columns,
        |k: int|
            members.subrange(
                column_start(members.len(), columns, k as nat) as int,
                column_start(members.len(), columns, (k + 1) as nat) as int,
            ),
    )
}

/// Column `k` takes its share of what the columns before it left.
pub proof fn lemma_column_step(n: nat, c: nat, k: nat)
    requires
        1 <= c <= n || (c == 1 && n == 0),
        k < c,
    ensures
        column_start(n, c, k) <= column_start(n, c, k + 1) <= n,
        column_start(n, c, k + 1) - column_start(n, c, k) == (n - column_start(n, c, k) + (c - k)
            - 1) / (c - k),
        column_start(n, c, 0) == 0,
        column_start(n, c, c) == n,
{
    let q = n / c;
    let m = n % c;
    assert(n == c * q + m && m < c) by (nonlinear_arith)
        requires
            q == n / c,
            m == n % c,
            c >= 1,
    ;
    let s = column_start(n, c, k);
    let s1 = column_start(n, c, k + 1);
    assert((k + 1) * q == k * q + q) by (nonlinear_arith);
    assert(c * q == k * q + (c - k) * q) by (nonlinear_arith);
    let d = (c - k) as int;
    let rem = if k < m {
        (m - k) as int
    } else {
        0
    };
    assert(n - s == d * q + rem);
    assert(0 <= rem < d);
    assert((d * q + rem + d - 1) / d == q + (if rem > 0 {
        1int
    } else {
        0
    })) by (nonlinear_arith)
        requires
            0 <= rem < d,
            q >= 0,
    ;
    assert((k + 1) * q <= c * q) by (nonlinear_arith)
        requires
            k + 1 <= c,
            q >= 0,
    ;
    assert(0 * q == 0);
}

/// Divides members into balanced contiguous columns.
pub fn split_members_into_columns(members: &Vec<usize>, desired_columns: usize) -> (r: Vec<
    Vec<usize>,
>)
    ensures
        group_views(r@) == columns_of(members@, desired_columns as nat),
{
    let n: usize = members.len();
    let most: usize = if n == 0 {
        1
    } else {
        n
    };
    let columns: usize = if desired_columns < 1 {
        1
    } else if desired_columns > most {
        most
    } else {
        desired_columns
    };
    let ghost all = columns_of(members@, desired_columns as nat);
    let mut groups: Vec<Vec<usize>> = Vec::new();
    let mut start: usize = 0;
    let mut k: usize = 0;
    proof {
        lemma_column_step(n as nat, columns as nat, 0);
    }
    while k < columns
        invariant
            k <= columns,
            n == members@.len(),
            columns == column_count(n as nat, desired_columns as nat),
            1 <= columns <= n || (columns == 1 && n == 0),
            start == column_start(n as nat, columns as nat, k as nat),
            start <= n,
            all == columns_of(members@, desired_columns as nat),
            group_views(groups@) == all.take(k as int),
        decreases columns - k,
    {
        proof {
            lemma_column_step(n as nat, columns as nat, k as nat);
        }
        let remaining_members: usize = n - start;
        let remaining_columns: usize = columns - k;
        let whole: usize = remaining_members / remaining_columns;
        assert(remaining_members % remaining_columns != 0 ==> whole < remaining_members)
            by (nonlinear_arith)
            requires
                remaining_columns > 0,
                whole == remaining_members / remaining_columns,
        ;
        let take: usize = if remaining_members % remaining_columns == 0 {
            whole
        } else {
            whole + 1
        };
        assert(take == (remaining_members + remaining_columns - 1) / (remaining_columns as int))
            by (nonlinear_arith)
            requires
                remaining_columns > 0,
                whole == remaining_members / remaining_columns,
                take == (if remaining_members % remaining_columns == 0 {
                    whole as int
                } else {
                    whole + 1
                }),
        ;
        let group: Vec<usize> = copy_positions(members, start, start + take);
        let ghost before = groups@;
        groups.push(group);
        assert(group_views(groups@) == group_views(before).push(all[k as int]));
        start = start + take;
        k += 1;
        assert(all.take(k as int) == all.take(k - 1).push(all[k - 1]));
    }
    assert(all.take(k as int) == all);
    groups
}

// ---------------------------------------------------------------------------
// The plan

/// Share of the last of `total_slots` equally high panes, in percent.
pub open spec fn stack_pct(total_slots: nat) -> u32 {
    if total_slots == 0 {
        90
    } else {
        ratio::clamp_pct((200 + total_slots) / (2 * total_slots))
    }
}

/// The share that one of `total_slots` equally high panes is split off with:
/// one hundred percent divided by the slots, halves rounded up.
pub fn split_off_current_member_pct(total_slots: usize) -> (r: u32)
    ensures
        r == stack_pct(total_slots as nat),
{
    if total_slots == 0 {
        return 90;
    }
    if total_slots > 1000 {
        assert((200 + total_slots) / (2 * total_slots as int) < 10) by (nonlinear_arith)
            requires
                total_slots > 1000,
        ;
        return 10;
    }
    clamped(((200 + total_slots) / (2 * total_slots)) as u64)
}

/// One step of a layout.
#[derive(Clone, Copy, Debug, PartialEq, Eq, Structural)]
pub enum LayoutStep {
    /// Create a pane to the right of `from`; it gets `pct` percent of it.
    SplitRight { from: usize, pct: u32 },
    /// Create a pane below `from`; it gets `pct` percent of it.
    SplitDown { from: usize, pct: u32 },
    /// Even out the stack that begins with `pane`.
    EvenOut { pane: usize },
    /// Title `pane` for the member and give it to them.
    Seat { pane: usize, member: usize },
}

/// The steps taken so far and the pane created last.
pub struct Drawing {
    pub steps: Seq<LayoutStep>,
    pub last: nat,
}

/// The sum of `weights`.
pub open spec fn weight_sum(weights: Seq<u32>) -> nat
    decreases weights.len(),
{
    if weights.len() == 0 {
        0
    } else {
        weights[0] as nat + weight_sum(weights.skip(1))
    }
}

/// The share of the pane that is split off for columns `i..`, in percent.
pub open spec fn column_pct(weights: Seq<u32>, i: int) -> u32 {
    ratio::clamp_pct(ratio::percent(weight_sum(weights.skip(i)), weight_sum(weights.skip(i - 1))))
}

/// The pane of column `i`, where the first column is `first` and the others
/// were created after pane `last`.
pub open spec fn column_pane(first: nat, last: nat, i: int) -> nat {
    if i == 0 {
        first
    } else {
        (last + i) as nat
    }
}

/// The first `upto` columns, split off one by one to the right.
pub open spec fn draw_columns(d: Drawing, first: nat, weights: Seq<u32>, upto: int) -> Drawing
    decreases upto,
{
    if upto <= 1 {
        d
    } else {
        let before = draw_columns(d, first, weights, upto - 1);
        Drawing {
            steps: before.steps.push(
                LayoutStep::SplitRight {
                    from: column_pane(first, d.last, upto - 2) as usize,
                    pct: column_pct(weights, upto - 1),
                },
            ),
            last: before.last + 1,
        }
    }
}

/// The members from position `from` on, split off one by one from below.
pub open spec fn draw_stack_above(d: Drawing, pane: nat, members: Seq<usize>, from: int) -> Drawing
    decreases members.len() - from,
{
    if from >= members.len() || from < 1 {
        d
    } else {
        let before = draw_stack_above(d, pane, members, from + 1);
        Drawing {
            steps: before.steps.push(
                LayoutStep::SplitDown { from: pane as usize, pct: stack_pct((from + 1) as nat) },
            ).push(LayoutStep::Seat { pane: (before.last + 1) as usize, member: members[from] }),
            last: before.last + 1,
        }
    }
}

/// The members stacked in `pane`, the first of them keeping it.
pub open spec fn draw_stack(d: Drawing, pane: nat, members: Seq<usize>) -> Drawing {
    let above = draw_stack_above(d, pane, members, 1);
    Drawing {
        steps: above.steps.push(LayoutStep::EvenOut { pane: pane as usize }).push(
            LayoutStep::Seat { pane: pane as usize, member: members[0] },
        ),
        last: above.last,
    }
}

/// The sizes of groups.
pub open spec fn sizes(groups: Seq<Seq<usize>>) -> Seq<u32> {
    Seq::new(groups.len(), |i: int| groups[i].len() as u32)
}

/// The first `upto` groups stacked in their columns.
pub open spec fn draw_groups(
    d: Drawing,
    first: nat,
    last: nat,
    groups: Seq<Seq<usize>>,
    upto: int,
) -> Drawing
    decreases upto,
{
    if upto <= 0 {
        d
    } else {
        draw_stack(
            draw_groups(d, first, last, groups, upto - 1),
            column_pane(first, last, upto - 1),
            groups[upto - 1],
        )
    }
}

/// The groups that the members of a zone are shown in.
pub open spec fn zone_groups(ms: Seq<MemberInstance>, zone: ZoneView) -> Seq<Seq<usize>> {
    if subgroups(ms, zone.members).len() == 1 {
        columns_of(zone.members, zone.horizontal_columns as nat)
    } else {
        subgroups(ms, zone.members)
    }
}

/// One zone drawn in its pane.
pub open spec fn draw_zone(
    ms: Seq<MemberInstance>,
    d: Drawing,
    pane: nat,
    zone: ZoneView,
) -> Drawing {
    if zone.members.len() == 0 {
        d
    } else {
        let groups = zone_groups(ms, zone);
        let split = draw_columns(d, pane, sizes(groups), groups.len() as int);
        draw_groups(split, pane, d.last, groups, groups.len() as int)
    }
}

/// The first `upto` zones drawn, zone `i` in the pane of column `i`.
pub open spec fn draw_zones(
    ms: Seq<MemberInstance>,
    d: Drawing,
    zones: Seq<ZoneView>,
    upto: int,
) -> Drawing
    decreases upto,
{
    if upto <= 0 {
        d
    } else {
        draw_zone(
            ms,
            draw_zones(ms, d, zones, upto - 1),
            column_pane(0, 0, upto - 1),
            zones[upto - 1],
        )
    }
}

/// The widths of zones.
pub open spec fn widths(zones: Seq<ZoneView>) -> Seq<u32> {
    Seq::new(zones.len(), |i: int| zones[i].width_pct)
}

/// A window with one pane.
pub open spec fn blank() -> Drawing {
    Drawing { steps: Seq::empty(), last: 0 }
}

/// The zones that a team is laid out in.
pub open spec fn team_zones(ms: Seq<MemberInstance>, layout: Option<LayoutConfig>) -> Seq<ZoneView> {
    match layout {
        Some(config) => zones_from_config(ms, config.zones@),
        None => zones_by_role(ms),
    }
}

/// The steps that lay out a team of panes: one member fills the window; more
/// are laid out by zones.
pub open spec fn team_steps(ms: Seq<MemberInstance>, layout: Option<LayoutConfig>) -> Seq<
    LayoutStep,
> {
    if ms.len() == 1 {
        seq![LayoutStep::Seat { pane: 0, member: 0 }]
    } else {
        let zones = team_zones(ms, layout);
        draw_zones(
            ms,
            draw_columns(blank(), 0, widths(zones), zones.len() as int),
            zones,
            zones.len() as int,
        ).steps
    }
}

proof fn lemma_weight_tail(weights: Seq<u32>, i: int)
    requires
        0 <= i <= weights.len(),
    ensures
        weight_sum(weights.skip(i)) <= weight_sum(weights),
        0 < i ==> weight_sum(weights.skip(i - 1)) == weights[i - 1] + weight_sum(weights.skip(i)),
    decreases i,
{
    if i > 0 {
        lemma_weight_tail(weights, i - 1);
        assert(weights.skip(i - 1).skip(1) == weights.skip(i));
        assert(weights.skip(i - 1)[0] == weights[i - 1]);
    } else {
        assert(weights.skip(0) == weights);
    }
}

fn sum_from(weights: &Vec<u32>, from: usize) -> (r: u32)
    requires
        from <= weights@.len(),
        weight_sum(weights@) <= u32::MAX,
    ensures
        r == weight_sum(weights@.skip(from as int)),
{
    let mut sum: u32 = 0;
    let mut i: usize = weights.len();
    while i > from
        invariant
            from <= i <= weights@.len(),
            weight_sum(weights@) <= u32::MAX,
            sum == weight_sum(weights@.skip(i as int)),
        decreases i,
    {
        proof {
            lemma_weight_tail(weights@, i as int);
            lemma_weight_tail(weights@, i - 1);
        }
        i -= 1;
        sum = sum + weights[i];
    }
    sum
}

/// A drawing in progress.
struct Sketch {
    steps: Vec<LayoutStep>,
    last: usize,
}

impl Sketch {
    spec fn text(self) -> Drawing {
        Drawing { steps: self.steps@, last: self.last as nat }
    }

    /// Every pane but the first came about by a step.
    spec fn wf(self) -> bool {
        self.last <= self.steps@.len()
    }

    fn split_right(&mut self, from: usize, pct: u32)
        requires
            old(self).wf(),
        ensures
            final(self).wf(),
            final(self).text() == (Drawing {
                steps: old(self).steps@.push(LayoutStep::SplitRight { from, pct }),
                last: (old(self).last + 1) as nat,
            }),
    {
        self.steps.push(LayoutStep::SplitRight { from, pct });
        let n: usize = self.steps.len();
        assert(self.last + 1 <= n);
        self.last = self.last + 1;
    }

    fn split_down(&mut self, from: usize, pct: u32, member: usize)
        requires
            old(self).wf(),
        ensures
            final(self).wf(),
            final(self).last == old(self).last + 1,
            final(self).text() == (Drawing {
                steps: old(self).steps@.push(LayoutStep::SplitDown { from, pct }).push(
                    LayoutStep::Seat { pane: (old(self).last + 1) as usize, member },
                ),
                last: (old(self).last + 1) as nat,
            }),
    {
        self.steps.push(LayoutStep::SplitDown { from, pct });
        let n: usize = self.steps.len();
        assert(self.last + 1 <= n);
        self.last = self.last + 1;
        self.steps.push(LayoutStep::Seat { pane: self.last, member });
    }
}

/// The panes of the columns: the given one, then new ones to its right.
fn split_subgroup_columns(sketch: &mut Sketch, first: usize, weights: &Vec<u32>) -> (r: Vec<usize>)
    requires
        old(sketch).wf(),
        weights@.len() > 0,
        weight_sum(weights@) <= u32::MAX,
    ensures
        final(sketch).wf(),
        final(sketch).text() == draw_columns(
            old(sketch).text(),
            first as nat,
            weights@,
            weights@.len() as int,
        ),
        r@.len() == weights@.len(),
        forall|i: int|
            0 <= i < r@.len() ==> #[trigger] r@[i] == column_pane(
                first as nat,
                old(sketch).last as nat,
                i,
            ),
{
    let ghost start = sketch.text();
    let mut panes: Vec<usize> = Vec::new();
    panes.push(first);
    let mut i: usize = 1;
    while i < weights.len()
        invariant
            1 <= i <= weights@.len(),
            sketch.wf(),
            weight_sum(weights@) <= u32::MAX,
            start == old(sketch).text(),
            sketch.text() == draw_columns(start, first as nat, weights@, i as int),
            sketch.last == start.last + i - 1,
            panes@.len() == i,
            forall|k: int|
                0 <= k < panes@.len() ==> #[trigger] panes@[k] == column_pane(
                    first as nat,
                    start.last,
                    k,
                ),
        decreases weights@.len() - i,
    {
        let right: u32 = sum_from(weights, i);
        let remaining: u32 = sum_from(weights, i - 1);
        proof {
            lemma_weight_tail(weights@, i as int);
        }
        let pct: u32 = clamped(percent_of(right, remaining));
        let from: usize = panes[i - 1];
        sketch.split_right(from, pct);
        panes.push(sketch.last);
        i += 1;
    }
    panes
}

/// Stacks members in a pane.
fn stack_members_in_pane(sketch: &mut Sketch, pane: usize, members: &Vec<usize>)
    requires
        old(sketch).wf(),
        members@.len() > 0,
    ensures
        final(sketch).wf(),
        final(sketch).text() == draw_stack(old(sketch).text(), pane as nat, members@),
        final(sketch).last == old(sketch).last + members@.len() - 1,
{
    let ghost start = sketch.text();
    let mut i: usize = members.len();
    while i > 1
        invariant
            1 <= i <= members@.len(),
            sketch.wf(),
            sketch.text() == draw_stack_above(start, pane as nat, members@, i as int),
            sketch.last == start.last + members@.len() - i,
        decreases i,
    {
        i -= 1;
        let pct: u32 = split_off_current_member_pct(i + 1);
        sketch.split_down(pane, pct, members[i]);
    }
    sketch.steps.push(LayoutStep::EvenOut { pane });
    sketch.steps.push(LayoutStep::Seat { pane, member: members[0] });
}

fn sizes_of(groups: &Vec<Vec<usize>>) -> (r: Vec<u32>)
    requires
        forall|i: int| 0 <= i < groups@.len() ==> (#[trigger] groups@[i])@.len() <= MAX_MEMBERS,
    ensures
        r@ == sizes(group_views(groups@)),
{
    let ghost all = sizes(group_views(groups@));
    let mut out: Vec<u32> = Vec::new();
    let mut i: usize = 0;
    while i < groups.len()
        invariant
            i <= groups@.len(),
            all == sizes(group_views(groups@)),
            out@ == all.take(i as int),
            forall|i: int|
                0 <= i < groups@.len() ==> (#[trigger] groups@[i])@.len() <= MAX_MEMBERS,
        decreases groups@.len() - i,
    {
        out.push(groups[i].len() as u32);
        i += 1;
        assert(all.take(i as int) == all.take(i - 1).push(all[i - 1]));
    }
    assert(all.take(i as int) == all);
    out
}

/// Draws one zone in its pane.
fn draw_one_zone(sketch: &mut Sketch, ms: &Vec<MemberInstance>, pane: usize, zone: &ZonePlan)
    requires
        old(sketch).wf(),
        zone.members@.len() <= MAX_MEMBERS,
        in_range(zone.members@, ms@.len()),
    ensures
        final(sketch).wf(),
        final(sketch).text() == draw_zone(ms@, old(sketch).text(), pane as nat, zone@),
{
    if zone.members.len() == 0 {
        return;
    }
    let ghost start = sketch.text();
    proof {
        crate::layout_laws::lemma_zone_is_drawable(ms@, zone@);
    }
    let sub: Vec<Vec<usize>> = split_zone_subgroups(ms, &zone.members);
    assert(group_views(sub@).len() == sub@.len());
    let groups: Vec<Vec<usize>> = if sub.len() == 1 {
        split_members_into_columns(&zone.members, zone.horizontal_columns)
    } else {
        sub
    };
    let ghost all = zone_groups(ms@, zone@);
    assert(group_views(groups@) == all);
    assert forall|i: int| 0 <= i < groups@.len() implies (#[trigger] groups@[i])@ == all[i] by {
        assert(group_views(groups@)[i] == groups@[i]@);
    }
    let weights: Vec<u32> = sizes_of(&groups);
    let panes: Vec<usize> = split_subgroup_columns(sketch, pane, &weights);
    let ghost split = sketch.text();
    let mut k: usize = 0;
    while k < groups.len()
        invariant
            k <= groups@.len(),
            groups@.len() == all.len(),
            panes@.len() == groups@.len(),
            sketch.wf(),
            crate::layout_laws::all_filled(all),
            forall|i: int| 0 <= i < groups@.len() ==> (#[trigger] groups@[i])@ == all[i],
            forall|i: int|
                0 <= i < panes@.len() ==> #[trigger] panes@[i] == column_pane(
                    pane as nat,
                    start.last,
                    i,
                ),
            sketch.text() == draw_groups(split, pane as nat, start.last, all, k as int),
        decreases groups@.len() - k,
    {
        assert(all[k as int].len() > 0);
        stack_members_in_pane(sketch, panes[k], &groups[k]);
        k += 1;
    }
}

/// The layout of a team's window.
#[derive(Debug)]
pub struct LayoutPlan {
    /// An orchestrator's pane is split off first.
    pub orchestrator: bool,
    /// The names of the members who get a pane, by the positions that the
    /// steps speak of.
    pub names: Vec<String>,
    pub steps: Vec<LayoutStep>,
}

/// Members who get a pane.
pub open spec fn has_pane(m: MemberInstance) -> bool {
    m.role_type != RoleType::User
}

/// The members who get a pane, in order.
pub open spec fn pane_members(members: Seq<MemberInstance>) -> Seq<MemberInstance> {
    members.filter(|m: MemberInstance| has_pane(m))
}

/// The names of members.
pub open spec fn member_names(members: Seq<MemberInstance>) -> Seq<Seq<char>> {
    Seq::new(members.len(), |i: int| members[i].name@)
}

fn clone_text(s: &Option<String>) -> (r: Option<String>)
    ensures
        r == *s,
{
    match s {
        Some(t) => Some(t.clone()),
        None => None,
    }
}

/// A copy of a member.
pub fn clone_member(m: &MemberInstance) -> (r: MemberInstance)
    ensures
        r == *m,
{
    MemberInstance {
        name: m.name.clone(),
        role_name: m.role_name.clone(),
        role_type: m.role_type,
        agent: clone_text(&m.agent),
        prompt: clone_text(&m.prompt),
        reports_to: clone_text(&m.reports_to),
        use_worktrees: m.use_worktrees,
    }
}

fn select_pane_members(members: &Vec<MemberInstance>) -> (r: (Vec<MemberInstance>, Vec<String>))
    ensures
        r.0@ == pane_members(members@),
        text::views(r.1@) == member_names(pane_members(members@)),
{
    let ghost p = |m: MemberInstance| has_pane(m);
    let mut out: Vec<MemberInstance> = Vec::new();
    let mut names: Vec<String> = Vec::new();
    let mut i: usize = 0;
    assert(out@ == members@.take(0).filter(p)) by {
        reveal(Seq::filter);
    }
    assert(text::views(names@) == member_names(out@));
    while i < members.len()
        invariant
            i <= members@.len(),
            p == (|m: MemberInstance| has_pane(m)),
            out@ == members@.take(i as int).filter(p),
            text::views(names@) == member_names(out@),
        decreases members@.len() - i,
    {
        proof {
            reveal(Seq::filter);
            assert(members@.take(i + 1).drop_last() == members@.take(i as int));
        }
        if members[i].role_type != RoleType::User {
            let ghost before = out@;
            let ghost names_before = names@;
            out.push(clone_member(&members[i]));
            names.push(members[i].name.clone());
            assert(text::views(names@) == text::views(names_before).push(members@[i as int].name@));
            assert(member_names(out@) == member_names(before).push(members@[i as int].name@));
        }
        i += 1;
    }
    assert(members@.take(i as int) == members@);
    (out, names)
}

proof fn lemma_role_widths(ms: Seq<MemberInstance>)
    requires
        ms.len() <= MAX_MEMBERS,
    ensures
        weight_sum(widths(zones_by_role(ms))) <= 300,
{
    let za = role_zone(ms, RoleType::Architect, 10);
    let zm = role_zone(ms, RoleType::Manager, 15);
    let ze = role_zone(ms, RoleType::Engineer, 20);
    lemma_role_width(ms, RoleType::Architect, 10);
    lemma_role_width(ms, RoleType::Manager, 15);
    lemma_role_width(ms, RoleType::Engineer, 20);
    let w = widths(zones_by_role(ms));
    assert(w.len() <= 3);
    assert forall|i: int| 0 <= i < w.len() implies #[trigger] w[i] <= 100 by {
        let z = za + zm + ze;
        assert(w[i] == z[i].width_pct);
        if i < za.len() {
            assert(z[i] == za[i]);
        } else if i < za.len() + zm.len() {
            assert(z[i] == zm[i - za.len()]);
        } else {
            assert(z[i] == ze[i - za.len() - zm.len()]);
        }
    }
    reveal_with_fuel(weight_sum, 5);
}

proof fn lemma_role_width(ms: Seq<MemberInstance>, role: RoleType, least: u32)
    requires
        least <= 100,
        ms.len() <= MAX_MEMBERS,
    ensures
        forall|i: int|
            0 <= i < role_zone(ms, role, least).len() ==> (#[trigger] role_zone(
                ms,
                role,
                least,
            )[i]).width_pct <= 100,
{
    let members = of_role(ms, role);
    everyone(ms.len()).lemma_filter_len(|i: usize| ms[i as int].role_type == role);
    if members.len() > 0 {
        assert((members.len() * 100) / ms.len() <= 100) by (nonlinear_arith)
            requires
                members.len() <= ms.len(),
                ms.len() > 0,
        ;
    }
}

fn widths_of(zones: &Vec<ZonePlan>) -> (r: Vec<u32>)
    ensures
        r@ == widths(zone_views(zones@)),
{
    let ghost all = widths(zone_views(zones@));
    let mut out: Vec<u32> = Vec::new();
    let mut i: usize = 0;
    while i < zones.len()
        invariant
            i <= zones@.len(),
            all == widths(zone_views(zones@)),
            out@ == all.take(i as int),
        decreases zones@.len() - i,
    {
        out.push(zones[i].width_pct);
        i += 1;
        assert(all.take(i as int) == all.take(i - 1).push(all[i - 1]));
    }
    assert(all.take(i as int) == all);
    out
}

/// Plans the window of a team session.
///
/// Every member but the user gets a pane. A single member gets the window;
/// otherwise the zones become columns, from left to right, and the members of
/// a zone are grouped and stacked in its column.
pub fn build_layout(
    members: &Vec<MemberInstance>,
    layout: &Option<LayoutConfig>,
    workflow_mode: WorkflowMode,
    orchestrator_pane: bool,
) -> (r: Result<LayoutPlan, String>)
    requires
        members@.len() <= MAX_MEMBERS,
        *layout matches Some(config) ==> weight_sum(
            widths(zones_from_config(pane_members(members@), config.zones@)),
        ) <= u32::MAX,
    ensures
        r is Err <==> pane_members(members@).len() == 0,
        r matches Err(e) ==> e@ == "no pane members to create layout for"@,
        r matches Ok(plan) ==> {
            &&& plan.orchestrator == (workflow_mode != WorkflowMode::Legacy && orchestrator_pane)
            &&& text::views(plan.names@) == member_names(pane_members(members@))
            &&& plan.steps@ == team_steps(pane_members(members@), *layout)
        },
{
    let (ms, names) = select_pane_members(members);
    proof {
        members@.lemma_filter_len(|m: MemberInstance| has_pane(m));
    }
    if ms.len() == 0 {
        return Err(copy("no pane members to create layout for"));
    }
    let orchestrator: bool = should_launch_orchestrator_pane(workflow_mode, orchestrator_pane);
    let mut sketch: Sketch = Sketch { steps: Vec::new(), last: 0 };
    if ms.len() == 1 {
        sketch.steps.push(LayoutStep::Seat { pane: 0, member: 0 });
        return Ok(LayoutPlan { orchestrator, names, steps: sketch.steps });
    }
    let zones: Vec<ZonePlan> = match layout {
        Some(config) => build_zones_from_config(config, &ms),
        None => build_zones_auto(&ms),
    };
    let ghost all = team_zones(ms@, *layout);
    assert(zone_views(zones@) == all);
    proof {
        crate::layout_laws::lemma_team_zones(ms@, *layout);
        if layout is None {
            lemma_role_widths(ms@);
        }
    }
    if zones.len() == 0 {
        assert(all.len() == 0);
        return Ok(LayoutPlan { orchestrator, names, steps: sketch.steps });
    }
    let weights: Vec<u32> = widths_of(&zones);
    let panes: Vec<usize> = split_subgroup_columns(&mut sketch, 0, &weights);
    let ghost split = sketch.text();
    assert(split == draw_columns(blank(), 0, widths(all), all.len() as int));
    let mut k: usize = 0;
    while k < zones.len()
        invariant
            k <= zones@.len(),
            ms@.len() <= MAX_MEMBERS,
            zone_views(zones@) == all,
            panes@.len() == zones@.len(),
            sketch.wf(),
            forall|i: int|
                0 <= i < all.len() ==> (#[trigger] all[i]).members.len() <= ms@.len() && in_range(
                    all[i].members,
                    ms@.len(),
                ),
            forall|i: int| 0 <= i < panes@.len() ==> #[trigger] panes@[i] == column_pane(0, 0, i),
            sketch.text() == draw_zones(ms@, split, all, k as int),
        decreases zones@.len() - k,
    {
        assert(all[k as int] == zones@[k as int]@);
        draw_one_zone(&mut sketch, &ms, panes[k], &zones[k]);
        k += 1;
    }
    Ok(LayoutPlan { orchestrator, names, steps: sketch.steps })
}

} // verus!
