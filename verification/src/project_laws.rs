//! What holds of setting up a project and of exporting its runs.

use vstd::prelude::*;

use crate::init;
use crate::init::Listing;
use crate::paths;
use crate::run_export;
use crate::run_export::RunLogs;
use crate::text;
use crate::text_laws::lemma_holds;

verus! {

// ---------------------------------------------------------------------------
// Setting up

/// Every template has a configuration of its own, and the prompts of its three
/// roles; the directives are the same for all.
pub proof fn law_templates_have_their_files(template: Seq<char>)
    ensures
        ({
            let yaml = init::template_yaml(template);
            let names = init::prompt_names(template);
            &&& template == "solo"@ ==> yaml == "team_solo.yaml"@
            &&& template == "pair"@ ==> yaml == "team_pair.yaml"@
            &&& template == "squad"@ ==> yaml == "team_squad.yaml"@
            &&& template == "large"@ ==> yaml == "team_large.yaml"@
            &&& template == "research"@ ==> yaml == "team_research.yaml"@ && names.take(3) == seq![
                "research_lead.md"@,
                "sub_lead.md"@,
                "researcher.md"@,
            ]
            &&& template == "software"@ ==> yaml == "team_software.yaml"@ && names.take(3) == seq![
                "tech_lead.md"@,
                "eng_manager.md"@,
                "developer.md"@,
            ]
            &&& template == "batty"@ ==> yaml == "team_batty.yaml"@ && names.take(3) == seq![
                "batty_architect.md"@,
                "batty_manager.md"@,
                "batty_engineer.md"@,
            ]
            &&& template == "simple"@ ==> yaml == "team_simple.yaml"@
            &&& template != "research"@ && template != "software"@ && template != "batty"@
                ==> names.take(3) == seq!["architect.md"@, "manager.md"@, "engineer.md"@]
            &&& names.len() == 6
            &&& names.skip(3) == seq![
                "replenishment_context.md"@,
                "review_policy.md"@,
                "escalation_policy.md"@,
            ]
        }),
{
    reveal_strlit("solo");
    reveal_strlit("pair");
    reveal_strlit("squad");
    reveal_strlit("large");
    reveal_strlit("research");
    reveal_strlit("software");
    reveal_strlit("batty");
    reveal_strlit("simple");
    assert("solo"@[0] == 's' && "solo"@.len() == 4);
    assert("pair"@[0] == 'p' && "pair"@.len() == 4);
    assert("squad"@[0] == 's' && "squad"@.len() == 5);
    assert("large"@[0] == 'l' && "large"@.len() == 5);
    assert("batty"@[0] == 'b' && "batty"@.len() == 5);
    assert("research"@[0] == 'r' && "research"@.len() == 8);
    assert("software"@[0] == 's' && "software"@.len() == 8);
    assert("simple"@[0] == 's' && "simple"@.len() == 6);
    let names = init::prompt_names(template);
    let directives = seq!["replenishment_context.md"@, "review_policy.md"@, "escalation_policy.md"@];
    let roles = names.take(3);
    assert(names.skip(3) =~= directives);
    if template == "research"@ {
        assert(roles =~= seq!["research_lead.md"@, "sub_lead.md"@, "researcher.md"@]);
    } else if template == "software"@ {
        assert(roles =~= seq!["tech_lead.md"@, "eng_manager.md"@, "developer.md"@]);
    } else if template == "batty"@ {
        assert(roles =~= seq!["batty_architect.md"@, "batty_manager.md"@, "batty_engineer.md"@]);
    } else {
        assert(roles =~= seq!["architect.md"@, "manager.md"@, "engineer.md"@]);
    }
}

/// Scaffolding writes those of the files that are not there yet, each into the
/// directory under its own name, and no file that is there.
pub proof fn law_scaffolding_overwrites_nothing(
    listing: Listing,
    dir: Seq<char>,
    names: Seq<Seq<char>>,
)
    ensures
        forall|k: int|
            0 <= k < init::missing(listing, dir, names).len() ==> ({
                let item = #[trigger] init::missing(listing, dir, names)[k];
                &&& names.contains(item.0)
                &&& item.1 == paths::join_path(dir, item.0)
                &&& !listing.has_file(item.1)
                &&& !listing.has_dir(item.1)
            }),
        forall|n: int|
            0 <= n < names.len() && !listing.has_file(paths::join_path(dir, #[trigger] names[n]))
                && !listing.has_dir(paths::join_path(dir, names[n])) ==> init::missing(
                listing,
                dir,
                names,
            ).contains((names[n], paths::join_path(dir, names[n]))),
    decreases names.len(),
{
    if names.len() > 0 {
        let front = names.drop_last();
        law_scaffolding_overwrites_nothing(listing, dir, front);
        let before = init::missing(listing, dir, front);
        let all = init::missing(listing, dir, names);
        assert forall|k: int| 0 <= k < all.len() implies ({
            let item = #[trigger] all[k];
            &&& names.contains(item.0)
            &&& item.1 == paths::join_path(dir, item.0)
            &&& !listing.has_file(item.1)
            &&& !listing.has_dir(item.1)
        }) by {
            if k < before.len() {
                assert(all[k] == before[k]);
                let i = choose|i: int| 0 <= i < front.len() && front[i] == before[k].0;
                assert(names[i] == before[k].0);
            } else {
                assert(names[names.len() - 1] == all[k].0);
            }
        }
        assert forall|n: int|
            0 <= n < names.len() && !listing.has_file(paths::join_path(dir, #[trigger] names[n]))
                && !listing.has_dir(paths::join_path(dir, names[n])) implies all.contains(
            (names[n], paths::join_path(dir, names[n])),
        ) by {
            let item = (names[n], paths::join_path(dir, names[n]));
            if n < front.len() {
                assert(front[n] == names[n]);
                let i = choose|i: int| 0 <= i < before.len() && before[i] == item;
                assert(all[i] == item);
            } else {
                assert(all[all.len() - 1] == item);
            }
        }
    }
}

proof fn lemma_no_fields(yaml: Seq<char>, default_agent: Seq<char>, agent: Seq<char>, i: int)
    requires
        0 <= i <= yaml.len(),
        forall|j: int| 0 <= j < yaml.len() ==> !#[trigger] text::matches_at(yaml, "agent: "@, j),
    ensures
        init::agents_from(yaml, default_agent, agent, i) == yaml.skip(i),
    decreases yaml.len() - i,
{
    if i < yaml.len() {
        reveal_strlit("agent: ");
        assert(!text::matches_at(yaml, "agent: "@, i));
        lemma_no_fields(yaml, default_agent, agent, i + 1);
        assert forall|tail: Seq<char>| text::matches_at(
            yaml,
            #[trigger] ("agent: "@ + tail),
            i,
        ) implies false by {
            let whole = "agent: "@ + tail;
            assert(yaml.subrange(i, i + "agent: "@.len()) =~= yaml.subrange(
                i,
                i + whole.len(),
            ).subrange(0, "agent: "@.len() as int));
            assert(whole.subrange(0, "agent: "@.len() as int) =~= "agent: "@);
        }
        assert(init::agent_field(yaml, default_agent, i) is None);
        assert(seq![yaml[i]] + yaml.skip(i + 1) =~= yaml.skip(i));
    } else {
        assert(yaml.skip(i) =~= Seq::<char>::empty());
    }
}

/// Choosing an agent changes nothing in a text that names no agent, and without
/// a choice every text stays as it is.
pub proof fn law_other_lines_stay(
    yaml: Seq<char>,
    default_agent: Seq<char>,
    agent: Seq<char>,
)
    ensures
        init::with_agent(yaml, default_agent, None) == yaml,
        (forall|j: int| 0 <= j < yaml.len() ==> !#[trigger] text::matches_at(yaml, "agent: "@, j))
            ==> init::with_agent(yaml, default_agent, Some(agent)) == yaml,
{
    if forall|j: int| 0 <= j < yaml.len() ==> !#[trigger] text::matches_at(yaml, "agent: "@, j) {
        lemma_no_fields(yaml, default_agent, agent, 0);
        assert(yaml.skip(0) =~= yaml);
    }
}

// ---------------------------------------------------------------------------
// Exports

/// An export goes to a directory of the project's exports that is named after
/// its time, with a number only where that name is taken.
pub proof fn law_exports_are_named_after_their_time(
    root: Seq<char>,
    time: u64,
    listing: Listing,
    path: Seq<char>,
)
    requires
        run_export::is_first_free(root, time, listing, path),
    ensures
        ({
            let exports = paths::join_path(paths::join_path(root, ".batty"@), "exports"@);
            let plain = paths::join_path(exports, text::decimal(time as nat));
            &&& !listing.has(plain) ==> path == plain
            &&& listing.has(plain) ==> exists|k: nat|
                k > 0 && path == paths::join_path(
                    exports,
                    text::decimal(time as nat) + "-"@ + #[trigger] text::decimal(k),
                )
            &&& !listing.has_file(path)
            &&& !listing.has_dir(path)
        }),
{
    let k = choose|k: nat|
        {
            &&& path == #[trigger] run_export::export_candidate(root, time, k)
            &&& !listing.has(path)
            &&& forall|j: nat|
                j < k ==> listing.has(#[trigger] run_export::export_candidate(root, time, j))
        };
    let first = run_export::export_candidate(root, time, 0);
    if k > 0 {
        assert(listing.has(first));
        assert(path == paths::join_path(
            run_export::exports_path(root),
            text::decimal(time as nat) + "-"@ + text::decimal(k),
        ));
    }
}

/// The export of a run copies the configuration, and each of the logs, the
/// timings, the tasks and the retrospectives that are there, to the place in
/// the export that is meant for it.
pub proof fn law_exports_hold_the_run(
    root: Seq<char>,
    logs: RunLogs,
    listing: Listing,
    dir: Seq<char>,
    f: Seq<char>,
)
    requires
        listing.has_file(f),
    ensures
        ({
            let copies = run_export::run_copies(root, logs, listing, dir);
            let batty = paths::join_path(root, ".batty"@);
            let config = paths::join_path(batty, "team_config"@);
            let tasks = paths::join_path(paths::join_path(config, "board"@), "tasks"@);
            let retros = paths::join_path(batty, "retrospectives"@);
            let to = |name: Seq<char>| paths::join_path(dir, name);
            &&& copies[0] == (paths::join_path(config, "team.yaml"@), to("team.yaml"@))
            &&& f == logs.events@ ==> copies.contains((f, to("events.jsonl"@)))
            &&& f == logs.daemon_log@ ==> copies.contains((f, to("daemon.log"@)))
            &&& f == logs.orchestrator_log@ ==> copies.contains((f, to("orchestrator.log"@)))
            &&& f == paths::join_path(batty, "test_timing.jsonl"@) ==> copies.contains(
                (f, to("test_timing.jsonl"@)),
            )
            &&& listing.has_dir(tasks) && init::below(tasks, f) is Some ==> copies.contains(
                (
                    f,
                    paths::join_path(
                        paths::join_path(to("board"@), "tasks"@),
                        init::below(tasks, f)->Some_0,
                    ),
                ),
            )
            &&& listing.has_dir(retros) && init::below(retros, f) is Some ==> copies.contains(
                (f, paths::join_path(to("retrospectives"@), init::below(retros, f)->Some_0)),
            )
        }),
{
    let batty = paths::batty_dir(root);
    let config = paths::team_config_dir_path(root);
    let tasks = paths::join_path(paths::join_path(config, "board"@), "tasks"@);
    let retros = paths::join_path(batty, "retrospectives"@);
    let to = |name: Seq<char>| paths::join_path(dir, name);
    let files = text::views(listing.files@);
    let a = seq![(init::team_yaml(root), to("team.yaml"@))];
    let b = run_export::dir_copies(listing, tasks, paths::join_path(to("board"@), "tasks"@));
    let c = run_export::file_copy(listing, logs.events@, to("events.jsonl"@));
    let d = run_export::file_copy(listing, logs.daemon_log@, to("daemon.log"@));
    let e = run_export::file_copy(listing, logs.orchestrator_log@, to("orchestrator.log"@));
    let g = run_export::dir_copies(listing, retros, to("retrospectives"@));
    let timing = paths::join_path(batty, "test_timing.jsonl"@);
    let h = run_export::file_copy(listing, timing, to("test_timing.jsonl"@));
    let copies = run_export::run_copies(root, logs, listing, dir);
    assert(copies == a + b + c + d + e + g + h);
    init::lemma_tree_copies(files, tasks, paths::join_path(to("board"@), "tasks"@));
    init::lemma_tree_copies(files, retros, to("retrospectives"@));
    if f == logs.events@ {
        assert(c[0] == (f, to("events.jsonl"@)));
        lemma_seven(a, b, c, d, e, g, h, (f, to("events.jsonl"@)));
    }
    if f == logs.daemon_log@ {
        assert(d[0] == (f, to("daemon.log"@)));
        lemma_seven(a, b, c, d, e, g, h, (f, to("daemon.log"@)));
    }
    if f == logs.orchestrator_log@ {
        assert(e[0] == (f, to("orchestrator.log"@)));
        lemma_seven(a, b, c, d, e, g, h, (f, to("orchestrator.log"@)));
    }
    if f == timing {
        assert(h[0] == (f, to("test_timing.jsonl"@)));
        lemma_seven(a, b, c, d, e, g, h, (f, to("test_timing.jsonl"@)));
    }
    if listing.has_dir(tasks) && init::below(tasks, f) is Some {
        let item = (
            f,
            paths::join_path(
                paths::join_path(to("board"@), "tasks"@),
                init::below(tasks, f)->Some_0,
            ),
        );
        lemma_seven(a, b, c, d, e, g, h, item);
    }
    if listing.has_dir(retros) && init::below(retros, f) is Some {
        let item = (f, paths::join_path(to("retrospectives"@), init::below(retros, f)->Some_0));
        lemma_seven(a, b, c, d, e, g, h, item);
    }
}

proof fn lemma_seven(
    a: Seq<(Seq<char>, Seq<char>)>,
    b: Seq<(Seq<char>, Seq<char>)>,
    c: Seq<(Seq<char>, Seq<char>)>,
    d: Seq<(Seq<char>, Seq<char>)>,
    e: Seq<(Seq<char>, Seq<char>)>,
    g: Seq<(Seq<char>, Seq<char>)>,
    h: Seq<(Seq<char>, Seq<char>)>,
    item: (Seq<char>, Seq<char>),
)
    requires
        a.contains(item) || b.contains(item) || c.contains(item) || d.contains(item) || e.contains(
            item,
        ) || g.contains(item) || h.contains(item),
    ensures
        (a + b + c + d + e + g + h).contains(item),
{
    lemma_either(a, b, item);
    lemma_either(a + b, c, item);
    lemma_either(a + b + c, d, item);
    lemma_either(a + b + c + d, e, item);
    lemma_either(a + b + c + d + e, g, item);
    lemma_either(a + b + c + d + e + g, h, item);
}

proof fn lemma_either(
    head: Seq<(Seq<char>, Seq<char>)>,
    part: Seq<(Seq<char>, Seq<char>)>,
    item: (Seq<char>, Seq<char>),
)
    ensures
        head.contains(item) || part.contains(item) ==> (head + part).contains(item),
{
    if head.contains(item) {
        let k = choose|k: int| 0 <= k < head.len() && head[k] == item;
        assert((head + part)[k] == item);
    } else if part.contains(item) {
        let k = choose|k: int| 0 <= k < part.len() && part[k] == item;
        assert((head + part)[head.len() + k] == item);
    }
}

/// A directory that lies directly in another is one of its templates, by its
/// name, and a directory further down is none.
pub proof fn law_templates_are_directories(listing: Listing, dir: Seq<char>, name: Seq<char>)
    requires
        dir.len() > 0,
        dir.last() != '/',
        name.len() > 0,
        name[0] != '/',
    ensures
        listing.has_dir(dir + seq!['/'] + name) && !name.contains('/') ==> init::is_subdir(
            listing,
            dir,
            name,
        ),
        init::is_subdir(listing, dir, name) ==> listing.has_dir(dir + seq!['/'] + name)
            && !name.contains('/'),
{
    let path = dir + seq!['/'] + name;
    let prefix = paths::join_path(dir, Seq::empty());
    assert(prefix =~= dir + seq!['/']);
    if listing.has_dir(path) && !name.contains('/') {
        let i = choose|i: int| 0 <= i < listing.dirs@.len() && text::views(listing.dirs@)[i] == path;
        assert(listing.dirs@[i]@ == path);
        assert(path.subrange(0, prefix.len() as int) =~= prefix);
        assert(path.skip(prefix.len() as int) =~= name);
        assert(init::child(dir, listing.dirs@[i]@) == Some(name));
    }
    if init::is_subdir(listing, dir, name) {
        let i = choose|i: int|
            0 <= i < listing.dirs@.len() && init::child(dir, (#[trigger] listing.dirs@[i])@)
                == Some(name);
        let p = listing.dirs@[i]@;
        assert(p.subrange(0, prefix.len() as int) == prefix);
        assert(p =~= prefix + p.skip(prefix.len() as int));
        assert(p =~= path);
        assert(text::views(listing.dirs@)[i] == path);
    }
}

/// Who asks for a template that is not there is told its name, where it was
/// looked for, and what there is.
pub proof fn law_unknown_templates_are_told(
    name: Seq<char>,
    dir: Seq<char>,
    available: Seq<Seq<char>>,
)
    ensures
        ({
            let e = init::unknown_template(name, dir, available);
            &&& text::starts_with(e, "template '"@ + name + "' not found in "@ + dir)
            &&& available.len() == 0 ==> text::ends_with(e, "; available templates: "@ + "(none)"@)
            &&& available.len() > 0 ==> text::ends_with(
                e,
                "; available templates: "@ + text::join(available, ", "@),
            )
        }),
{
    let e = init::unknown_template(name, dir, available);
    let head = "template '"@ + name + "' not found in "@ + dir;
    let list = if available.len() == 0 {
        "(none)"@
    } else {
        text::join(available, ", "@)
    };
    let tail = "; available templates: "@ + list;
    assert(e =~= head + tail);
    lemma_holds(Seq::empty(), head, tail);
    lemma_holds(head, tail, Seq::empty());
}

proof fn lemma_prompts_are_copied(prompts: Seq<Seq<char>>, dst: Seq<char>)
    ensures
        init::prompt_copies(prompts, dst).len() == prompts.len(),
        forall|k: int|
            0 <= k < prompts.len() ==> (#[trigger] init::prompt_copies(prompts, dst)[k]).0
                == prompts[k],
    decreases prompts.len(),
{
    if prompts.len() > 0 {
        lemma_prompts_are_copied(prompts.drop_last(), dst);
    }
}

/// The export of a template holds the configuration first, then every Markdown
/// file that lies directly beside it, and nothing else.
pub proof fn law_template_exports_hold_the_prompts(
    root: Seq<char>,
    template_dir: Seq<char>,
    listing: Listing,
    copies: Seq<(Seq<char>, Seq<char>)>,
    p: Seq<char>,
)
    requires
        init::is_template_export(root, template_dir, listing, copies),
    ensures
        ({
            let config = paths::join_path(paths::join_path(root, ".batty"@), "team_config"@);
            let exported = exists|k: int| 1 <= k < copies.len() && (#[trigger] copies[k]).0 == p;
            &&& copies.len() > 0
            &&& copies[0] == (
                paths::join_path(config, "team.yaml"@),
                paths::join_path(template_dir, "team.yaml"@),
            )
            &&& exported <==> (listing.has_file(p) || listing.has_dir(p)) && init::child(
                config,
                p,
            ) is Some && paths::extension(p) == Some("md"@)
        }),
{
    let config = paths::team_config_dir_path(root);
    let prompts = choose|prompts: Seq<Seq<char>>|
        {
            &&& #[trigger] text::is_increasing(prompts)
            &&& forall|q: Seq<char>| #[trigger]
                prompts.contains(q) <==> init::is_prompt(listing, config, q)
            &&& copies == seq![
                (init::team_yaml(root), paths::join_path(template_dir, "team.yaml"@)),
            ] + init::prompt_copies(prompts, template_dir)
        };
    lemma_prompts_are_copied(prompts, template_dir);
    let rest = init::prompt_copies(prompts, template_dir);
    if prompts.contains(p) {
        let k = choose|k: int| 0 <= k < prompts.len() && prompts[k] == p;
        assert(rest[k].0 == p);
        assert(copies[k + 1] == rest[k]);
    }
    if exists|k: int| 1 <= k < copies.len() && (#[trigger] copies[k]).0 == p {
        let k = choose|k: int| 1 <= k < copies.len() && (#[trigger] copies[k]).0 == p;
        assert(copies[k] == rest[k - 1]);
        assert(prompts[k - 1] == p);
        assert(prompts.contains(p));
    }
}

} // verus!
