//! The export of a run: its configuration, tasks, events and logs.

use vstd::prelude::*;
use vstd::string::*;

use crate::clock::now_unix;
use crate::digits;
use crate::init;
use crate::init::{copy_template_dir, team_config_path, CopyItem, Listing};
use crate::paths;
use crate::paths::{joined, team_config_dir};
use crate::text;
use crate::text::{copy, decimal_string};

verus! {

/// `<root>/.batty/exports`.
pub open spec fn exports_path(project_root: Seq<char>) -> Seq<char> {
    paths::join_path(paths::batty_dir(project_root), "exports"@)
}

/// Where the exports of a project are.
pub fn exports_dir(project_root: &str) -> (r: String)
    ensures
        r@ == exports_path(project_root@),
{
    joined(joined(project_root, ".batty").as_str(), "exports")
}

/// The name of an export, the first being the time itself.
pub open spec fn export_name(timestamp: u64, k: nat) -> Seq<char> {
    if k == 0 {
        text::decimal(timestamp as nat)
    } else {
        text::decimal(timestamp as nat) + "-"@ + text::decimal(k)
    }
}

/// The path of an export.
pub open spec fn export_candidate(project_root: Seq<char>, timestamp: u64, k: nat) -> Seq<char> {
    paths::join_path(exports_path(project_root), export_name(timestamp, k))
}

/// This is the first path that is free.
pub open spec fn is_first_free(
    project_root: Seq<char>,
    timestamp: u64,
    listing: Listing,
    path: Seq<char>,
) -> bool {
    exists|k: nat|
        {
            &&& path == #[trigger] export_candidate(project_root, timestamp, k)
            &&& !listing.has(path)
            &&& forall|j: nat|
                j < k ==> listing.has(#[trigger] export_candidate(project_root, timestamp, j))
        }
}

proof fn lemma_names_differ(timestamp: u64, i: nat, j: nat)
    requires
        export_name(timestamp, i) == export_name(timestamp, j),
    ensures
        i == j,
{
    reveal_strlit("-");
    let t = text::decimal(timestamp as nat);
    let x = if i == 0 {
        Seq::empty()
    } else {
        "-"@ + text::decimal(i)
    };
    let y = if j == 0 {
        Seq::empty()
    } else {
        "-"@ + text::decimal(j)
    };
    assert(export_name(timestamp, i) == t + x);
    assert(export_name(timestamp, j) == t + y);
    digits::lemma_split_at_dash(timestamp as nat, x, timestamp as nat, y);
    if i > 0 && j > 0 {
        assert(x.skip(1) == text::decimal(i));
        assert(y.skip(1) == text::decimal(j));
        digits::lemma_decimal_injective(i, j);
    }
}

proof fn lemma_candidates_differ(project_root: Seq<char>, timestamp: u64, i: nat, j: nat)
    requires
        export_candidate(project_root, timestamp, i) == export_candidate(
            project_root,
            timestamp,
            j,
        ),
    ensures
        i == j,
{
    digits::lemma_decimal_digits(timestamp as nat);
    let base = exports_path(project_root);
    let a = export_name(timestamp, i);
    let b = export_name(timestamp, j);
    assert(text::is_digit(text::decimal(timestamp as nat)[0]));
    assert(a[0] == text::decimal(timestamp as nat)[0]);
    assert(b[0] == text::decimal(timestamp as nat)[0]);
    let front = if base.len() == 0 || base.last() == '/' {
        base
    } else {
        base.push('/')
    };
    assert(paths::join_path(base, a) == front + a);
    assert(paths::join_path(base, b) == front + b);
    assert((front + a).skip(front.len() as int) == a);
    assert((front + b).skip(front.len() as int) == b);
    lemma_names_differ(timestamp, i, j);
}

/// The first `k` candidates.
spec fn candidates(project_root: Seq<char>, timestamp: u64, k: nat) -> Set<Seq<char>>
    decreases k,
{
    if k == 0 {
        Set::empty()
    } else {
        candidates(project_root, timestamp, (k - 1) as nat).insert(
            export_candidate(project_root, timestamp, (k - 1) as nat),
        )
    }
}

proof fn lemma_candidates(project_root: Seq<char>, timestamp: u64, k: nat)
    ensures
        candidates(project_root, timestamp, k).finite(),
        candidates(project_root, timestamp, k).len() == k,
        forall|p: Seq<char>| #[trigger]
            candidates(project_root, timestamp, k).contains(p) ==> exists|j: nat|
                j < k && p == #[trigger] export_candidate(project_root, timestamp, j),
    decreases k,
{
    if k > 0 {
        let n = (k - 1) as nat;
        lemma_candidates(project_root, timestamp, n);
        let c = export_candidate(project_root, timestamp, n);
        if candidates(project_root, timestamp, n).contains(c) {
            let j = choose|j: nat|
                j < n && c == #[trigger] export_candidate(project_root, timestamp, j);
            lemma_candidates_differ(project_root, timestamp, j, n);
        }
    }
}

/// There are not more taken candidates than paths.
proof fn lemma_some_is_free(project_root: Seq<char>, timestamp: u64, listing: Listing, k: nat)
    requires
        forall|j: nat|
            j < k ==> listing.has(#[trigger] export_candidate(project_root, timestamp, j)),
    ensures
        k <= listing.files@.len() + listing.dirs@.len(),
{
    lemma_candidates(project_root, timestamp, k);
    let all = text::views(listing.files@) + text::views(listing.dirs@);
    let taken = all.to_set();
    all.lemma_cardinality_of_set();
    let c = candidates(project_root, timestamp, k);
    assert forall|p: Seq<char>| c.contains(p) implies taken.contains(p) by {
        let j = choose|j: nat| j < k && p == #[trigger] export_candidate(project_root, timestamp, j);
        assert(listing.has(p));
        let f = text::views(listing.files@);
        let d = text::views(listing.dirs@);
        if f.contains(p) {
            let i = choose|i: int| 0 <= i < f.len() && f[i] == p;
            assert(all[i] == p);
        } else {
            let i = choose|i: int| 0 <= i < d.len() && d[i] == p;
            assert(all[f.len() + i] == p);
        }
    }
    assert(c.subset_of(taken));
    vstd::set_lib::lemma_len_subset(c, taken);
}

/// Where an export made at this time goes: to a directory named after the
/// time, with a number behind it where that is taken.
pub fn create_run_export_dir_at(project_root: &str, timestamp: u64, listing: &Listing) -> (r: String)
    requires
        listing.files@.len() + listing.dirs@.len() < u64::MAX,
    ensures
        is_first_free(project_root@, timestamp, *listing, r@),
{
    let base: String = exports_dir(project_root);
    let stamp: String = decimal_string(timestamp);
    let primary: String = joined(base.as_str(), stamp.as_str());
    assert(primary@ == export_candidate(project_root@, timestamp, 0));
    if !listing.is_there(primary.as_str()) {
        return primary;
    }
    let mut suffix: u64 = 1;
    loop
        invariant
            suffix >= 1,
            suffix <= listing.files@.len() + listing.dirs@.len() + 1,
            listing.files@.len() + listing.dirs@.len() < u64::MAX,
            base@ == exports_path(project_root@),
            stamp@ == text::decimal(timestamp as nat),
            forall|j: nat|
                j < suffix ==> listing.has(
                    #[trigger] export_candidate(project_root@, timestamp, j),
                ),
        decreases listing.files@.len() + listing.dirs@.len() + 1 - suffix,
    {
        proof {
            lemma_some_is_free(project_root@, timestamp, *listing, suffix as nat);
        }
        let name: String = copy(stamp.as_str()).concat("-").concat(decimal_string(suffix).as_str());
        let candidate: String = joined(base.as_str(), name.as_str());
        assert(candidate@ == export_candidate(project_root@, timestamp, suffix as nat));
        if !listing.is_there(candidate.as_str()) {
            return candidate;
        }
        proof {
            assert forall|j: nat| j < suffix + 1 implies listing.has(
                #[trigger] export_candidate(project_root@, timestamp, j),
            ) by {
                if j == suffix {
                    assert(export_candidate(project_root@, timestamp, j) == candidate@);
                }
            }
            lemma_some_is_free(project_root@, timestamp, *listing, (suffix + 1) as nat);
        }
        suffix += 1;
    }
}

/// Where an export made now goes, by the clock.
pub fn create_run_export_dir(project_root: &str, listing: &Listing) -> (r: String)
    requires
        listing.files@.len() + listing.dirs@.len() < u64::MAX,
    ensures
        exists|timestamp: u64| #[trigger]
            is_first_free(project_root@, timestamp, *listing, r@),
{
    let timestamp: u64 = now_unix();
    create_run_export_dir_at(project_root, timestamp, listing)
}

/// The copy of a file, where it exists.
pub open spec fn file_copy(listing: Listing, src: Seq<char>, dst: Seq<char>) -> Seq<
    (Seq<char>, Seq<char>),
> {
    if listing.has_file(src) {
        seq![(src, dst)]
    } else {
        Seq::empty()
    }
}

/// The copies of a directory, where it exists.
pub open spec fn dir_copies(listing: Listing, src: Seq<char>, dst: Seq<char>) -> Seq<
    (Seq<char>, Seq<char>),
> {
    if listing.has_dir(src) {
        init::tree_copies(text::views(listing.files@), src, dst)
    } else {
        Seq::empty()
    }
}

fn copy_file_if_exists(out: &mut Vec<CopyItem>, listing: &Listing, src: &str, dst: &str)
    ensures
        init::copy_views(final(out)@) == init::copy_views(old(out)@) + file_copy(
            *listing,
            src@,
            dst@,
        ),
{
    let ghost before = out@;
    if listing.is_file(src) {
        out.push(CopyItem { source: copy(src), destination: copy(dst) });
        assert(init::copy_views(out@) =~= init::copy_views(before) + seq![(src@, dst@)]);
    } else {
        assert(init::copy_views(out@) =~= init::copy_views(before) + Seq::<
            (Seq<char>, Seq<char>),
        >::empty());
    }
}

fn copy_dir_if_exists(out: &mut Vec<CopyItem>, listing: &Listing, src: &str, dst: &str)
    ensures
        init::copy_views(final(out)@) == init::copy_views(old(out)@) + dir_copies(
            *listing,
            src@,
            dst@,
        ),
{
    let ghost before = out@;
    if listing.is_dir(src) {
        let mut items: Vec<CopyItem> = copy_template_dir(listing, src, dst);
        let ghost added = items@;
        out.append(&mut items);
        assert(init::copy_views(out@) =~= init::copy_views(before) + init::copy_views(added));
    } else {
        assert(init::copy_views(out@) =~= init::copy_views(before) + Seq::<
            (Seq<char>, Seq<char>),
        >::empty());
    }
}

/// Where a run keeps what is not in its configuration.
#[derive(Clone, Debug)]
pub struct RunLogs {
    pub events: String,
    pub daemon_log: String,
    pub orchestrator_log: String,
}

/// What the export of a run copies.
pub open spec fn run_copies(
    project_root: Seq<char>,
    logs: RunLogs,
    listing: Listing,
    dir: Seq<char>,
) -> Seq<(Seq<char>, Seq<char>)> {
    let batty = paths::batty_dir(project_root);
    seq![(init::team_yaml(project_root), paths::join_path(dir, "team.yaml"@))] + dir_copies(
        listing,
        paths::join_path(
            paths::join_path(paths::team_config_dir_path(project_root), "board"@),
            "tasks"@,
        ),
        paths::join_path(paths::join_path(dir, "board"@), "tasks"@),
    ) + file_copy(listing, logs.events@, paths::join_path(dir, "events.jsonl"@)) + file_copy(
        listing,
        logs.daemon_log@,
        paths::join_path(dir, "daemon.log"@),
    ) + file_copy(
        listing,
        logs.orchestrator_log@,
        paths::join_path(dir, "orchestrator.log"@),
    ) + dir_copies(
        listing,
        paths::join_path(batty, "retrospectives"@),
        paths::join_path(dir, "retrospectives"@),
    ) + file_copy(
        listing,
        paths::join_path(batty, "test_timing.jsonl"@),
        paths::join_path(dir, "test_timing.jsonl"@),
    )
}

/// Plans the export of a run to a directory: the configuration, and whatever
/// there is of tasks, events, logs, retrospectives and timings. Refuses where
/// there is no configuration.
pub fn export_run(project_root: &str, logs: &RunLogs, listing: &Listing, export_dir: &str) -> (r:
    Result<Vec<CopyItem>, String>)
    ensures
        r is Ok <==> listing.has_file(init::team_yaml(project_root@)),
        r matches Err(e) ==> e@ == init::config_missing(init::team_yaml(project_root@)),
        r matches Ok(copies) ==> init::copy_views(copies@) == run_copies(
            project_root@,
            *logs,
            *listing,
            export_dir@,
        ),
{
    let yaml: String = team_config_path(project_root);
    if !listing.is_file(yaml.as_str()) {
        return Err(copy("team config missing at ").concat(yaml.as_str()));
    }
    let batty: String = joined(project_root, ".batty");
    let tasks: String = joined(
        joined(team_config_dir(project_root).as_str(), "board").as_str(),
        "tasks",
    );
    let mut out: Vec<CopyItem> = Vec::new();
    out.push(CopyItem { source: yaml, destination: joined(export_dir, "team.yaml") });
    assert(init::copy_views(out@) =~= seq![
        (init::team_yaml(project_root@), paths::join_path(export_dir@, "team.yaml"@)),
    ]);
    copy_dir_if_exists(
        &mut out,
        listing,
        tasks.as_str(),
        joined(joined(export_dir, "board").as_str(), "tasks").as_str(),
    );
    copy_file_if_exists(
        &mut out,
        listing,
        logs.events.as_str(),
        joined(export_dir, "events.jsonl").as_str(),
    );
    copy_file_if_exists(
        &mut out,
        listing,
        logs.daemon_log.as_str(),
        joined(export_dir, "daemon.log").as_str(),
    );
    copy_file_if_exists(
        &mut out,
        listing,
        logs.orchestrator_log.as_str(),
        joined(export_dir, "orchestrator.log").as_str(),
    );
    copy_dir_if_exists(
        &mut out,
        listing,
        joined(batty.as_str(), "retrospectives").as_str(),
        joined(export_dir, "retrospectives").as_str(),
    );
    copy_file_if_exists(
        &mut out,
        listing,
        joined(batty.as_str(), "test_timing.jsonl").as_str(),
        joined(export_dir, "test_timing.jsonl").as_str(),
    );
    Ok(out)
}

// ---------------------------------------------------------------------------
// Laws

/// An export never goes where something is, so no earlier export is lost.
pub proof fn law_exports_do_not_overwrite(
    project_root: Seq<char>,
    timestamp: u64,
    listing: Listing,
    path: Seq<char>,
)
    requires
        is_first_free(project_root, timestamp, listing, path),
    ensures
        !listing.has(path),
{
}

} // verus!
