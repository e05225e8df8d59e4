//! Scaffolding of a team's configuration, templates, and the export of a run.
//!
//! What exists comes in as a listing of paths; what is to be written or copied
//! is returned.

use vstd::prelude::*;
use vstd::string::*;

use crate::paths;
use crate::paths::{extension_of, file_name_of, joined, team_config_dir};
use crate::text;
use crate::text::{
    begins, chars_of, copy, is_among, join_strings, match_at, same, sorted_distinct, string_of_all,
};

verus! {

/// The paths that exist.
#[derive(Clone, Debug)]
pub struct Listing {
    pub files: Vec<String>,
    pub dirs: Vec<String>,
}

impl Listing {
    /// There is a file at this path.
    pub open spec fn has_file(self, path: Seq<char>) -> bool {
        text::views(self.files@).contains(path)
    }

    /// There is a directory at this path.
    pub open spec fn has_dir(self, path: Seq<char>) -> bool {
        text::views(self.dirs@).contains(path)
    }

    /// There is something at this path.
    pub open spec fn has(self, path: Seq<char>) -> bool {
        self.has_file(path) || self.has_dir(path)
    }

    /// Tells whether there is a file at this path.
    pub fn is_file(&self, path: &str) -> (r: bool)
        ensures
            r == self.has_file(path@),
    {
        is_among(&self.files, path)
    }

    /// Tells whether there is a directory at this path.
    pub fn is_dir(&self, path: &str) -> (r: bool)
        ensures
            r == self.has_dir(path@),
    {
        is_among(&self.dirs, path)
    }

    /// Tells whether there is something at this path.
    pub fn is_there(&self, path: &str) -> (r: bool)
        ensures
            r == self.has(path@),
    {
        self.is_file(path) || self.is_dir(path)
    }
}

/// A file to copy.
#[derive(Clone, Debug)]
pub struct CopyItem {
    pub source: String,
    pub destination: String,
}

/// The texts of some copies.
pub open spec fn copy_views(items: Seq<CopyItem>) -> Seq<(Seq<char>, Seq<char>)> {
    items.map_values(|c: CopyItem| (c.source@, c.destination@))
}

/// `<root>/.batty/team_config/team.yaml`.
pub open spec fn team_yaml(project_root: Seq<char>) -> Seq<char> {
    paths::join_path(paths::team_config_dir_path(project_root), "team.yaml"@)
}

/// Where a team's configuration is.
pub fn team_config_path(project_root: &str) -> (r: String)
    ensures
        r@ == team_yaml(project_root@),
{
    joined(team_config_dir(project_root).as_str(), "team.yaml")
}

/// `<home>/.batty/templates`.
pub open spec fn templates_path(home: Seq<char>) -> Seq<char> {
    paths::join_path(paths::join_path(home, ".batty"@), "templates"@)
}

/// Where a user's templates are.
pub fn templates_base_dir(home: &str) -> (r: String)
    ensures
        r@ == templates_path(home@),
{
    joined(joined(home, ".batty").as_str(), "templates")
}

// ---------------------------------------------------------------------------
// Scaffolding

/// The file of a built-in template; what is not known is the simple one.
pub open spec fn template_yaml(template: Seq<char>) -> Seq<char> {
    if template == "solo"@ {
        "team_solo.yaml"@
    } else if template == "pair"@ {
        "team_pair.yaml"@
    } else if template == "squad"@ {
        "team_squad.yaml"@
    } else if template == "large"@ {
        "team_large.yaml"@
    } else if template == "research"@ {
        "team_research.yaml"@
    } else if template == "software"@ {
        "team_software.yaml"@
    } else if template == "batty"@ {
        "team_batty.yaml"@
    } else {
        "team_simple.yaml"@
    }
}

/// The file of a built-in template.
pub fn template_file(template: &str) -> (r: String)
    ensures
        r@ == template_yaml(template@),
{
    if same(template, "solo") {
        copy("team_solo.yaml")
    } else if same(template, "pair") {
        copy("team_pair.yaml")
    } else if same(template, "squad") {
        copy("team_squad.yaml")
    } else if same(template, "large") {
        copy("team_large.yaml")
    } else if same(template, "research") {
        copy("team_research.yaml")
    } else if same(template, "software") {
        copy("team_software.yaml")
    } else if same(template, "batty") {
        copy("team_batty.yaml")
    } else {
        copy("team_simple.yaml")
    }
}

/// The length of the `agent: ` field that begins at `i` and names an agent of
/// the templates, which are `default_agent` and Codex.
pub open spec fn agent_field(yaml: Seq<char>, default_agent: Seq<char>, i: int) -> Option<nat> {
    if text::matches_at(yaml, "agent: "@ + default_agent, i) {
        Some(7 + default_agent.len())
    } else if text::matches_at(yaml, "agent: "@ + "codex"@, i) {
        Some(12)
    } else {
        None
    }
}

/// The text from `i` on, with every field that names an agent of the
/// templates replaced by one that names `agent`. What was put in is not read
/// again.
pub open spec fn agents_from(
    yaml: Seq<char>,
    default_agent: Seq<char>,
    agent: Seq<char>,
    i: int,
) -> Seq<char>
    decreases (if i < yaml.len() { yaml.len() - i } else { 0 }),
{
    if i < 0 || i >= yaml.len() {
        Seq::empty()
    } else {
        match agent_field(yaml, default_agent, i) {
            Some(n) => "agent: "@ + agent + agents_from(yaml, default_agent, agent, i + n),
            None => seq![yaml[i]] + agents_from(yaml, default_agent, agent, i + 1),
        }
    }
}

/// The configuration of a template, with every agent replaced by the given
/// one; `default_agent` and Codex are the agents that templates name.
pub open spec fn with_agent(
    yaml: Seq<char>,
    default_agent: Seq<char>,
    agent: Option<Seq<char>>,
) -> Seq<char> {
    match agent {
        Some(a) => agents_from(yaml, default_agent, a, 0),
        None => yaml,
    }
}

/// The configuration of a template, with every agent replaced by the given
/// one.
pub fn team_yaml_content(yaml: &str, default_agent: &str, agent: &Option<String>) -> (r: String)
    ensures
        r@ == with_agent(yaml@, default_agent@, paths::opt_view(*agent)),
{
    let a: &str = match agent {
        Some(a) => a.as_str(),
        None => {
            return copy(yaml);
        },
    };
    proof {
        reveal_strlit("agent: ");
        reveal_strlit("codex");
    }
    let v: Vec<char> = chars_of(yaml);
    let first: Vec<char> = chars_of(copy("agent: ").concat(default_agent).as_str());
    let second: Vec<char> = chars_of(copy("agent: ").concat("codex").as_str());
    let to: String = copy("agent: ").concat(a);
    let mut out: String = String::new();
    let mut i: usize = 0;
    assert(out@ + agents_from(v@, default_agent@, a@, 0) == agents_from(
        v@,
        default_agent@,
        a@,
        0,
    ));
    while i < v.len()
        invariant
            i <= v@.len(),
            v@ == yaml@,
            first@ == "agent: "@ + default_agent@,
            second@ == "agent: "@ + "codex"@,
            first@.len() == 7 + default_agent@.len(),
            second@.len() == 12,
            to@ == "agent: "@ + a@,
            out@ + agents_from(v@, default_agent@, a@, i as int) == agents_from(
                v@,
                default_agent@,
                a@,
                0,
            ),
        decreases v@.len() - i,
    {
        let ghost before = out@;
        let ghost rest = |k: int| agents_from(v@, default_agent@, a@, k);
        if match_at(&v, &first, i) {
            out.append(to.as_str());
            assert(before + (to@ + rest(i + first@.len())) == out@ + rest(i + first@.len()));
            i += first.len();
        } else if match_at(&v, &second, i) {
            out.append(to.as_str());
            assert(before + (to@ + rest(i + 12)) == out@ + rest(i + 12));
            i += second.len();
        } else {
            out.push(v[i]);
            assert(before + (seq![v@[i as int]] + rest(i + 1)) == out@ + rest(i + 1));
            i += 1;
        }
    }
    assert(out@ + Seq::<char>::empty() == out@);
    out
}

/// The prompts of a template's roles, and the directives.
pub open spec fn prompt_names(template: Seq<char>) -> Seq<Seq<char>> {
    (if template == "research"@ {
        seq!["research_lead.md"@, "sub_lead.md"@, "researcher.md"@]
    } else if template == "software"@ {
        seq!["tech_lead.md"@, "eng_manager.md"@, "developer.md"@]
    } else if template == "batty"@ {
        seq!["batty_architect.md"@, "batty_manager.md"@, "batty_engineer.md"@]
    } else {
        seq!["architect.md"@, "manager.md"@, "engineer.md"@]
    }) + seq!["replenishment_context.md"@, "review_policy.md"@, "escalation_policy.md"@]
}

/// The prompts of a template's roles, and the directives.
pub fn prompt_files(template: &str) -> (r: Vec<String>)
    ensures
        text::views(r@) == prompt_names(template@),
{
    let mut out: Vec<String> = Vec::new();
    if same(template, "research") {
        out.push(copy("research_lead.md"));
        out.push(copy("sub_lead.md"));
        out.push(copy("researcher.md"));
    } else if same(template, "software") {
        out.push(copy("tech_lead.md"));
        out.push(copy("eng_manager.md"));
        out.push(copy("developer.md"));
    } else if same(template, "batty") {
        out.push(copy("batty_architect.md"));
        out.push(copy("batty_manager.md"));
        out.push(copy("batty_engineer.md"));
    } else {
        out.push(copy("architect.md"));
        out.push(copy("manager.md"));
        out.push(copy("engineer.md"));
    }
    out.push(copy("replenishment_context.md"));
    out.push(copy("review_policy.md"));
    out.push(copy("escalation_policy.md"));
    assert(text::views(out@) =~= prompt_names(template@));
    out
}

/// Those of some files of a directory that are not there yet, each with its
/// path.
pub open spec fn missing(listing: Listing, dir: Seq<char>, names: Seq<Seq<char>>) -> Seq<
    (Seq<char>, Seq<char>),
>
    decreases names.len(),
{
    if names.len() == 0 {
        Seq::empty()
    } else {
        let rest = missing(listing, dir, names.drop_last());
        let path = paths::join_path(dir, names.last());
        if listing.has(path) {
            rest
        } else {
            rest.push((names.last(), path))
        }
    }
}

/// Why nothing is scaffolded where there is a configuration.
pub open spec fn already_exists(path: Seq<char>) -> Seq<char> {
    "team config already exists at "@ + path + "; remove it first or edit directly"@
}

fn refuse_existing(path: &str) -> (r: String)
    ensures
        r@ == already_exists(path@),
{
    copy("team config already exists at ").concat(path).concat(
        "; remove it first or edit directly",
    )
}

/// What scaffolding takes.
#[derive(Clone, Debug)]
pub struct InitPlan {
    /// The files to write: the name of the template's file, and the path. The
    /// first is the configuration.
    pub files: Vec<CopyItem>,
    /// The board to set up, where there is none.
    pub board_dir: Option<String>,
}

/// Plans the scaffolding of a team's configuration: the configuration itself,
/// and the prompts and directives that are not there yet. Refuses where there
/// is a configuration.
pub fn init_team(project_root: &str, template: &str, listing: &Listing) -> (r: Result<
    InitPlan,
    String,
>)
    ensures
        r is Err <==> listing.has(team_yaml(project_root@)),
        r matches Err(e) ==> e@ == already_exists(team_yaml(project_root@)),
        r matches Ok(plan) ==> {
            let dir = paths::team_config_dir_path(project_root@);
            let board = paths::join_path(dir, "board"@);
            &&& copy_views(plan.files@) == seq![
                (template_yaml(template@), team_yaml(project_root@)),
            ] + missing(*listing, dir, prompt_names(template@))
            &&& paths::opt_view(plan.board_dir) == (if listing.has(board) {
                None
            } else {
                Some(board)
            })
        },
{
    let dir: String = team_config_dir(project_root);
    let yaml: String = team_config_path(project_root);
    if listing.is_there(yaml.as_str()) {
        return Err(refuse_existing(yaml.as_str()));
    }
    let ghost first = seq![(template_yaml(template@), team_yaml(project_root@))];
    let mut files: Vec<CopyItem> = Vec::new();
    files.push(CopyItem { source: template_file(template), destination: yaml });
    let names: Vec<String> = prompt_files(template);
    let ghost all = prompt_names(template@);
    let mut i: usize = 0;
    assert(copy_views(files@) =~= first + missing(*listing, dir@, all.take(0)));
    while i < names.len()
        invariant
            i <= names@.len(),
            all == text::views(names@),
            copy_views(files@) == first + missing(*listing, dir@, all.take(i as int)),
        decreases names@.len() - i,
    {
        assert(all.take(i + 1).drop_last() == all.take(i as int));
        assert(all[i as int] == names@[i as int]@);
        let path: String = joined(dir.as_str(), names[i].as_str());
        if !listing.is_there(path.as_str()) {
            let ghost before = files@;
            let ghost shown = (all[i as int], path@);
            files.push(CopyItem { source: copy(names[i].as_str()), destination: path });
            assert(copy_views(files@) =~= copy_views(before).push(shown));
            assert(first + missing(*listing, dir@, all.take(i + 1)) =~= (first + missing(
                *listing,
                dir@,
                all.take(i as int),
            )).push(shown));
        }
        i += 1;
    }
    assert(all.take(i as int) == all);
    let board: String = joined(dir.as_str(), "board");
    let board_dir: Option<String> = if listing.is_there(board.as_str()) {
        None
    } else {
        Some(board)
    };
    Ok(InitPlan { files, board_dir })
}

/// How the board's program fared.
#[derive(Clone, Copy, Debug, PartialEq, Eq, Structural)]
pub enum BoardReply {
    Created,
    Failed,
    NotFound,
}

/// What there is instead of a board where the program for it failed: a file
/// with these headings. Returns the path that was created, and what to write
/// there, where something is to be written.
pub fn init_board(project_root: &str, board_dir: &str, reply: BoardReply) -> (r: (
    String,
    Option<String>,
))
    ensures
        reply == BoardReply::Created ==> r.0@ == board_dir@ && r.1 is None,
        reply != BoardReply::Created ==> r.0@ == paths::join_path(
            paths::team_config_dir_path(project_root@),
            "kanban.md"@,
        ) && paths::opt_view(r.1) == Some(
            "# Kanban Board\n\n## Backlog\n\n## In Progress\n\n## Done\n"@,
        ),
{
    match reply {
        BoardReply::Created => (copy(board_dir), None),
        _ => (
            joined(team_config_dir(project_root).as_str(), "kanban.md"),
            Some(copy("# Kanban Board\n\n## Backlog\n\n## In Progress\n\n## Done\n")),
        ),
    }
}

// ---------------------------------------------------------------------------
// Trees

/// What stands behind a directory in a path that lies under it.
pub open spec fn below(dir: Seq<char>, path: Seq<char>) -> Option<Seq<char>> {
    let prefix = paths::join_path(dir, Seq::empty());
    if text::starts_with(path, prefix) && path.len() > prefix.len() {
        Some(path.skip(prefix.len() as int))
    } else {
        None
    }
}

fn rest_below(dir: &str, path: &str) -> (r: Option<Vec<char>>)
    ensures
        paths::chars_view(r) == below(dir@, path@),
{
    proof {
        reveal_strlit("");
        assert(""@ =~= Seq::<char>::empty());
    }
    let prefix: String = joined(dir, "");
    let p: Vec<char> = chars_of(path);
    let n: usize = prefix.as_str().unicode_len();
    if begins(&p, prefix.as_str()) && p.len() > n {
        let rest: Vec<char> = text::slice_of(&p, n, p.len());
        assert(rest@ == path@.skip(n as int));
        Some(rest)
    } else {
        None
    }
}

/// The name of something that lies directly in a directory.
pub open spec fn child(dir: Seq<char>, path: Seq<char>) -> Option<Seq<char>> {
    match below(dir, path) {
        Some(rest) => if rest.contains('/') {
            None
        } else {
            Some(rest)
        },
        None => None,
    }
}

fn has_slash(s: &Vec<char>) -> (r: bool)
    ensures
        r == s@.contains('/'),
{
    let mut i: usize = 0;
    while i < s.len()
        invariant
            i <= s@.len(),
            forall|k: int| 0 <= k < i ==> s@[k] != '/',
        decreases s@.len() - i,
    {
        if s[i] == '/' {
            assert(s@[i as int] == '/');
            return true;
        }
        i += 1;
    }
    false
}

/// The name of something that lies directly in a directory.
pub fn child_of(dir: &str, path: &str) -> (r: Option<String>)
    ensures
        paths::opt_view(r) == child(dir@, path@),
{
    match rest_below(dir, path) {
        Some(rest) => {
            if has_slash(&rest) {
                None
            } else {
                Some(string_of_all(&rest))
            }
        },
        None => None,
    }
}

/// The copies of all files under one directory to another.
pub open spec fn tree_copies(files: Seq<Seq<char>>, src: Seq<char>, dst: Seq<char>) -> Seq<
    (Seq<char>, Seq<char>),
>
    decreases files.len(),
{
    if files.len() == 0 {
        Seq::empty()
    } else {
        let rest = tree_copies(files.drop_last(), src, dst);
        match below(src, files.last()) {
            Some(r) => rest.push((files.last(), paths::join_path(dst, r))),
            None => rest,
        }
    }
}

/// The copies of all files under one directory to another.
pub fn copy_template_dir(listing: &Listing, src: &str, dst: &str) -> (r: Vec<CopyItem>)
    ensures
        copy_views(r@) == tree_copies(text::views(listing.files@), src@, dst@),
{
    let ghost all = text::views(listing.files@);
    let mut out: Vec<CopyItem> = Vec::new();
    let mut i: usize = 0;
    assert(copy_views(out@) =~= tree_copies(all.take(0), src@, dst@));
    while i < listing.files.len()
        invariant
            i <= listing.files@.len(),
            all == text::views(listing.files@),
            copy_views(out@) == tree_copies(all.take(i as int), src@, dst@),
        decreases listing.files@.len() - i,
    {
        assert(all.take(i + 1).drop_last() == all.take(i as int));
        assert(all[i as int] == listing.files@[i as int]@);
        match rest_below(src, listing.files[i].as_str()) {
            Some(rest) => {
                let destination: String = joined(dst, string_of_all(&rest).as_str());
                let ghost before = out@;
                let ghost shown = (all[i as int], destination@);
                out.push(CopyItem { source: copy(listing.files[i].as_str()), destination });
                assert(copy_views(out@) =~= copy_views(before).push(shown));
            },
            None => {},
        }
        i += 1;
    }
    assert(all.take(i as int) == all);
    out
}

/// A directory of this name lies in that directory.
pub open spec fn is_subdir(listing: Listing, dir: Seq<char>, name: Seq<char>) -> bool {
    exists|i: int|
        0 <= i < listing.dirs@.len() && child(dir, (#[trigger] listing.dirs@[i])@) == Some(name)
}

/// Why there are no templates.
pub open spec fn no_templates(dir: Seq<char>) -> Seq<char> {
    "no templates directory found at "@ + dir
}

/// Lists the templates of a user, in the order of a dictionary.
pub fn list_available_templates(templates_dir: &str, listing: &Listing) -> (r: Result<
    Vec<String>,
    String,
>)
    ensures
        r is Ok <==> listing.has_dir(templates_dir@),
        r matches Err(e) ==> e@ == no_templates(templates_dir@),
        r matches Ok(names) ==> text::is_increasing(text::views(names@)) && (forall|
            n: Seq<char>,
        | #[trigger]
            text::views(names@).contains(n) <==> is_subdir(*listing, templates_dir@, n)),
{
    if !listing.is_dir(templates_dir) {
        return Err(copy("no templates directory found at ").concat(templates_dir));
    }
    let ghost dirs = listing.dirs@;
    let mut names: Vec<String> = Vec::new();
    let mut i: usize = 0;
    while i < listing.dirs.len()
        invariant
            i <= dirs.len(),
            dirs == listing.dirs@,
            forall|n: Seq<char>| #[trigger]
                text::views(names@).contains(n) <==> exists|k: int|
                    0 <= k < i && child(templates_dir@, (#[trigger] dirs[k])@) == Some(n),
        decreases dirs.len() - i,
    {
        let ghost v0 = text::views(names@);
        let ghost before = names@;
        match child_of(templates_dir, listing.dirs[i].as_str()) {
            Some(name) => {
                let ghost shown = name@;
                names.push(name);
                assert(text::views(names@) == v0.push(shown));
            },
            None => {},
        }
        proof {
            let v1 = text::views(names@);
            assert forall|n: Seq<char>| #[trigger] v1.contains(n) <==> exists|k: int|
                0 <= k < i + 1 && child(templates_dir@, (#[trigger] dirs[k])@) == Some(n) by {
                if v1.contains(n) {
                    let j = choose|j: int| 0 <= j < v1.len() && v1[j] == n;
                    if j < v0.len() {
                        assert(v0[j] == n);
                        assert(v0.contains(n));
                        let k = choose|k: int|
                            0 <= k < i && child(templates_dir@, (#[trigger] dirs[k])@) == Some(n);
                        assert(child(templates_dir@, dirs[k]@) == Some(n));
                    } else {
                        assert(child(templates_dir@, dirs[i as int]@) == Some(n));
                    }
                }
                if exists|k: int|
                    0 <= k < i + 1 && child(templates_dir@, (#[trigger] dirs[k])@) == Some(n) {
                    let k = choose|k: int|
                        0 <= k < i + 1 && child(templates_dir@, (#[trigger] dirs[k])@) == Some(n);
                    if k < i {
                        assert(v0.contains(n));
                        let j = choose|j: int| 0 <= j < v0.len() && v0[j] == n;
                        assert(v1[j] == n);
                    } else {
                        assert(v1[v0.len() as int] == n);
                    }
                }
            }
        }
        i += 1;
    }
    Ok(sorted_distinct(&names))
}

/// Why a template cannot be used.
pub open spec fn unknown_template(
    name: Seq<char>,
    templates_dir: Seq<char>,
    available: Seq<Seq<char>>,
) -> Seq<char> {
    "template '"@ + name + "' not found in "@ + templates_dir + "; available templates: "@ + (
    if available.len() == 0 {
        "(none)"@
    } else {
        text::join(available, ", "@)
    })
}

/// Plans to copy a user's template to the team's configuration. Refuses where
/// there are no templates, where the template is not known, and where there
/// is a configuration.
pub fn init_from_template(
    project_root: &str,
    templates_dir: &str,
    template_name: &str,
    listing: &Listing,
) -> (r: Result<Vec<CopyItem>, String>)
    ensures
        if !listing.has_dir(templates_dir@) {
            r matches Err(e) && e@ == no_templates(templates_dir@)
        } else if !is_subdir(*listing, templates_dir@, template_name@) {
            r matches Err(e) && exists|available: Seq<Seq<char>>|
                {
                    &&& #[trigger] text::is_increasing(available)
                    &&& forall|n: Seq<char>| #[trigger]
                        available.contains(n) <==> is_subdir(*listing, templates_dir@, n)
                    &&& e@ == unknown_template(template_name@, templates_dir@, available)
                }
        } else if listing.has(team_yaml(project_root@)) {
            r matches Err(e) && e@ == already_exists(team_yaml(project_root@))
        } else {
            r matches Ok(copies) && copy_views(copies@) == tree_copies(
                text::views(listing.files@),
                paths::join_path(templates_dir@, template_name@),
                paths::team_config_dir_path(project_root@),
            )
        },
{
    let available: Vec<String> = match list_available_templates(templates_dir, listing) {
        Ok(a) => a,
        Err(e) => {
            return Err(e);
        },
    };
    if !is_among(&available, template_name) {
        assert(text::views(available@).len() == available@.len());
        let display: String = if available.len() == 0 {
            copy("(none)")
        } else {
            join_strings(&available, ", ")
        };
        assert(text::is_increasing(text::views(available@)));
        return Err(
            copy("template '").concat(template_name).concat("' not found in ").concat(
                templates_dir,
            ).concat("; available templates: ").concat(display.as_str()),
        );
    }
    let yaml: String = team_config_path(project_root);
    if listing.is_there(yaml.as_str()) {
        return Err(refuse_existing(yaml.as_str()));
    }
    let source: String = joined(templates_dir, template_name);
    let destination: String = team_config_dir(project_root);
    Ok(copy_template_dir(listing, source.as_str(), destination.as_str()))
}

// ---------------------------------------------------------------------------
// Exports

/// Why nothing can be exported.
pub open spec fn config_missing(path: Seq<char>) -> Seq<char> {
    "team config missing at "@ + path
}

/// Something of the configuration that is a prompt: it lies directly in the
/// directory and ends in `.md`.
pub open spec fn is_prompt(listing: Listing, dir: Seq<char>, path: Seq<char>) -> bool {
    &&& listing.has(path)
    &&& child(dir, path) is Some
    &&& paths::extension(path) == Some("md"@)
}

fn add_prompts(out: &mut Vec<String>, entries: &Vec<String>, dir: &str)
    ensures
        forall|p: Seq<char>| #[trigger]
            text::views(final(out)@).contains(p) <==> text::views(old(out)@).contains(p) || (
            text::views(entries@).contains(p) && child(dir@, p) is Some && paths::extension(p)
                == Some("md"@)),
{
    let ghost start = text::views(out@);
    let ghost ev = text::views(entries@);
    let mut i: usize = 0;
    while i < entries.len()
        invariant
            i <= entries@.len(),
            ev == text::views(entries@),
            forall|p: Seq<char>| #[trigger]
                text::views(out@).contains(p) <==> start.contains(p) || (ev.take(
                    i as int,
                ).contains(p) && child(dir@, p) is Some && paths::extension(p) == Some("md"@)),
        decreases entries@.len() - i,
    {
        let ghost v0 = text::views(out@);
        let ghost shown = ev[i as int];
        let ghost before = out@;
        let is_md: bool = match extension_of(entries[i].as_str()) {
            Some(ext) => same(ext.as_str(), "md"),
            None => false,
        };
        if is_md && child_of(dir, entries[i].as_str()).is_some() {
            out.push(copy(entries[i].as_str()));
            assert(text::views(out@) == v0.push(shown));
        }
        proof {
            let v1 = text::views(out@);
            let t0 = ev.take(i as int);
            let t1 = ev.take(i + 1);
            assert(t1 == t0.push(shown));
            assert forall|p: Seq<char>| #[trigger] v1.contains(p) <==> start.contains(p) || (
            t1.contains(p) && child(dir@, p) is Some && paths::extension(p) == Some("md"@)) by {
                lemma_push_contains(v0, shown, p);
                lemma_push_contains(t0, shown, p);
                assert(v0.contains(p) <==> start.contains(p) || (t0.contains(p) && child(
                    dir@,
                    p,
                ) is Some && paths::extension(p) == Some("md"@)));
            }
        }
        i += 1;
    }
    assert(ev.take(i as int) == ev);
}

proof fn lemma_push_contains(s: Seq<Seq<char>>, x: Seq<char>, p: Seq<char>)
    ensures
        s.push(x).contains(p) <==> s.contains(p) || p == x,
{
    let t = s.push(x);
    if s.contains(p) {
        let k = choose|k: int| 0 <= k < s.len() && s[k] == p;
        assert(t[k] == p);
    }
    assert(t[s.len() as int] == x);
    if t.contains(p) {
        let k = choose|k: int| 0 <= k < t.len() && t[k] == p;
        if k < s.len() {
            assert(s[k] == p);
        }
    }
}

/// The copies of some prompts to a directory.
pub open spec fn prompt_copies(prompts: Seq<Seq<char>>, dst: Seq<char>) -> Seq<
    (Seq<char>, Seq<char>),
>
    decreases prompts.len(),
{
    if prompts.len() == 0 {
        Seq::empty()
    } else {
        prompt_copies(prompts.drop_last(), dst).push(
            (
                prompts.last(),
                paths::join_path(
                    dst,
                    match paths::file_name(prompts.last()) {
                        Some(n) => n,
                        None => Seq::empty(),
                    },
                ),
            ),
        )
    }
}

/// This is the export of a team's configuration as a template: the
/// configuration, then the prompts in the order of a dictionary.
pub open spec fn is_template_export(
    project_root: Seq<char>,
    template_dir: Seq<char>,
    listing: Listing,
    copies: Seq<(Seq<char>, Seq<char>)>,
) -> bool {
    exists|prompts: Seq<Seq<char>>|
        {
            &&& #[trigger] text::is_increasing(prompts)
            &&& forall|p: Seq<char>| #[trigger]
                prompts.contains(p) <==> is_prompt(
                    listing,
                    paths::team_config_dir_path(project_root),
                    p,
                )
            &&& copies == seq![
                (team_yaml(project_root), paths::join_path(template_dir, "team.yaml"@)),
            ] + prompt_copies(prompts, template_dir)
        }
}

/// Plans to copy a team's configuration to a template of the user.
pub fn export_template(project_root: &str, templates_dir: &str, name: &str, listing: &Listing) -> (r:
    Result<Vec<CopyItem>, String>)
    ensures
        r is Ok <==> listing.has_file(team_yaml(project_root@)),
        r matches Err(e) ==> e@ == config_missing(team_yaml(project_root@)),
        r matches Ok(copies) ==> is_template_export(
            project_root@,
            paths::join_path(templates_dir@, name@),
            *listing,
            copy_views(copies@),
        ),
{
    let yaml: String = team_config_path(project_root);
    if !listing.is_file(yaml.as_str()) {
        return Err(copy("team config missing at ").concat(yaml.as_str()));
    }
    let dir: String = team_config_dir(project_root);
    let template_dir: String = joined(templates_dir, name);
    let mut found: Vec<String> = Vec::new();
    assert(text::views(found@) == Seq::<Seq<char>>::empty());
    add_prompts(&mut found, &listing.files, dir.as_str());
    add_prompts(&mut found, &listing.dirs, dir.as_str());
    let prompts: Vec<String> = sorted_distinct(&found);
    let ghost pv = text::views(prompts@);
    assert forall|p: Seq<char>| #[trigger] pv.contains(p) <==> is_prompt(*listing, dir@, p) by {
        assert(text::views(found@).contains(p) <==> pv.contains(p));
    }
    let ghost first = seq![
        (team_yaml(project_root@), paths::join_path(template_dir@, "team.yaml"@)),
    ];
    let mut out: Vec<CopyItem> = Vec::new();
    out.push(CopyItem { source: yaml, destination: joined(template_dir.as_str(), "team.yaml") });
    let mut i: usize = 0;
    assert(copy_views(out@) =~= first + prompt_copies(pv.take(0), template_dir@));
    while i < prompts.len()
        invariant
            i <= prompts@.len(),
            pv == text::views(prompts@),
            copy_views(out@) == first + prompt_copies(pv.take(i as int), template_dir@),
        decreases prompts@.len() - i,
    {
        assert(pv.take(i + 1).drop_last() == pv.take(i as int));
        assert(pv[i as int] == prompts@[i as int]@);
        let file: String = match file_name_of(prompts[i].as_str()) {
            Some(n) => string_of_all(&n),
            None => String::new(),
        };
        let destination: String = joined(template_dir.as_str(), file.as_str());
        let ghost before = out@;
        let ghost shown = (pv[i as int], destination@);
        out.push(CopyItem { source: copy(prompts[i].as_str()), destination });
        assert(copy_views(out@) =~= copy_views(before).push(shown));
        i += 1;
        assert(first + prompt_copies(pv.take(i as int), template_dir@) =~= (first + prompt_copies(
            pv.take(i - 1),
            template_dir@,
        )).push(shown));
    }
    assert(pv.take(i as int) == pv);
    assert(text::is_increasing(pv));
    Ok(out)
}

// ---------------------------------------------------------------------------
// Laws

/// A field that names an agent stays on its line.
proof fn lemma_field_on_one_line(s: Seq<char>, default_agent: Seq<char>, i: int, k: int)
    requires
        !default_agent.contains('\n'),
        agent_field(s, default_agent, i) matches Some(n) && i <= k < i + n,
    ensures
        s[k] != '\n',
{
    reveal_strlit("agent: ");
    reveal_strlit("codex");
    let first = "agent: "@ + default_agent;
    let second = "agent: "@ + "codex"@;
    let needle = if text::matches_at(s, first, i) {
        first
    } else {
        second
    };
    assert(s.subrange(i, i + needle.len())[k - i] == needle[k - i]);
    if needle == first && k - i >= 7 {
        assert(default_agent.contains(default_agent[k - i - 7]));
        assert(first[k - i] == default_agent[k - i - 7]);
    }
}

/// The fields of a text in two parts are those of its parts, where a line
/// ends between them.
proof fn lemma_agents_of_parts(
    x: Seq<char>,
    y: Seq<char>,
    default_agent: Seq<char>,
    agent: Seq<char>,
    i: int,
)
    requires
        !default_agent.contains('\n'),
        x.len() == 0 || x.last() == '\n' || y.len() == 0 || y[0] == '\n',
        0 <= i <= x.len(),
    ensures
        agents_from(x + y, default_agent, agent, i) == agents_from(x, default_agent, agent, i)
            + agents_from(y, default_agent, agent, 0),
    decreases x.len() - i,
{
    let s = x + y;
    if i == x.len() {
        lemma_agents_behind(x, y, default_agent, agent, 0);
        assert(agents_from(x, default_agent, agent, i) =~= Seq::<char>::empty());
        assert(agents_from(s, default_agent, agent, i) =~= agents_from(
            x,
            default_agent,
            agent,
            i,
        ) + agents_from(y, default_agent, agent, 0));
    } else {
        assert(s[i] == x[i]);
        let rest = agents_from(y, default_agent, agent, 0);
        match agent_field(s, default_agent, i) {
            Some(n) => {
                reveal_strlit("agent: ");
                reveal_strlit("codex");
                if i + n > x.len() {
                    lemma_field_on_one_line(s, default_agent, i, x.len() as int);
                    lemma_field_on_one_line(s, default_agent, i, x.len() - 1);
                    assert(s[x.len() as int] == y[0]);
                    assert(s[x.len() - 1] == x.last());
                    assert(false);
                }
                lemma_same_field(x, y, default_agent, i);
                lemma_agents_of_parts(x, y, default_agent, agent, i + n);
                let here = "agent: "@ + agent;
                assert(here + (agents_from(x, default_agent, agent, i + n) + rest) =~= (here
                    + agents_from(x, default_agent, agent, i + n)) + rest);
            },
            None => {
                lemma_same_field(x, y, default_agent, i);
                lemma_agents_of_parts(x, y, default_agent, agent, i + 1);
                let here = seq![x[i]];
                assert(here + (agents_from(x, default_agent, agent, i + 1) + rest) =~= (here
                    + agents_from(x, default_agent, agent, i + 1)) + rest);
            },
        }
    }
}

/// What stands behind a text does not change a field that ends in it.
proof fn lemma_same_field(x: Seq<char>, y: Seq<char>, default_agent: Seq<char>, i: int)
    requires
        0 <= i < x.len(),
        agent_field(x + y, default_agent, i) matches Some(n) ==> i + n <= x.len(),
    ensures
        agent_field(x, default_agent, i) == agent_field(x + y, default_agent, i),
{
    reveal_strlit("agent: ");
    reveal_strlit("codex");
    let first = "agent: "@ + default_agent;
    let second = "agent: "@ + "codex"@;
    if i + first.len() <= x.len() {
        assert((x + y).subrange(i, i + first.len()) =~= x.subrange(i, i + first.len()));
    }
    if i + second.len() <= x.len() {
        assert((x + y).subrange(i, i + second.len()) =~= x.subrange(i, i + second.len()));
    }
}

/// What stands before a text does not change its fields.
proof fn lemma_agents_behind(
    x: Seq<char>,
    y: Seq<char>,
    default_agent: Seq<char>,
    agent: Seq<char>,
    j: int,
)
    requires
        0 <= j <= y.len(),
    ensures
        agents_from(x + y, default_agent, agent, x.len() + j) == agents_from(
            y,
            default_agent,
            agent,
            j,
        ),
    decreases y.len() - j,
{
    if j < y.len() {
        let s = x + y;
        let i = x.len() + j;
        let first = "agent: "@ + default_agent;
        let second = "agent: "@ + "codex"@;
        if j + first.len() <= y.len() {
            assert(s.subrange(i, i + first.len()) =~= y.subrange(j, j + first.len()));
        }
        if j + second.len() <= y.len() {
            assert(s.subrange(i, i + second.len()) =~= y.subrange(j, j + second.len()));
        }
        assert(agent_field(s, default_agent, i) == agent_field(y, default_agent, j));
        assert(s[i] == y[j]);
        match agent_field(y, default_agent, j) {
            Some(n) => {
                reveal_strlit("agent: ");
                reveal_strlit("codex");
                lemma_agents_behind(x, y, default_agent, agent, j + n);
            },
            None => {
                lemma_agents_behind(x, y, default_agent, agent, j + 1);
            },
        }
    }
}

/// The line of an agent, from `i` on.
proof fn lemma_agent_line(
    indent: Seq<char>,
    named: Seq<char>,
    default_agent: Seq<char>,
    agent: Seq<char>,
    i: int,
)
    requires
        is_template_agent(named, default_agent),
        0 <= i <= indent.len(),
        forall|j: int|
            0 <= j < indent.len() ==> !text::matches_at(
                indent + "agent: "@ + named,
                "agent: "@,
                j,
            ),
    ensures
        agents_from(indent + "agent: "@ + named, default_agent, agent, i) == indent.skip(i)
            + "agent: "@ + agent,
    decreases indent.len() - i,
{
    let line = indent + "agent: "@ + named;
    let first = "agent: "@ + default_agent;
    let second = "agent: "@ + "codex"@;
    reveal_strlit("agent: ");
    reveal_strlit("codex");
    if i < indent.len() {
        if text::matches_at(line, first, i) {
            assert(line.subrange(i, i + 7) =~= line.subrange(i, i + first.len()).subrange(0, 7));
            assert(first.subrange(0, 7) =~= "agent: "@);
            assert(text::matches_at(line, "agent: "@, i));
        }
        if text::matches_at(line, second, i) {
            assert(line.subrange(i, i + 7) =~= line.subrange(i, i + second.len()).subrange(0, 7));
            assert(second.subrange(0, 7) =~= "agent: "@);
            assert(text::matches_at(line, "agent: "@, i));
        }
        lemma_agent_line(indent, named, default_agent, agent, i + 1);
        assert(seq![line[i]] + (indent.skip(i + 1) + "agent: "@ + agent) =~= indent.skip(i)
            + "agent: "@ + agent);
    } else {
        assert(line.subrange(i, line.len() as int) =~= "agent: "@ + named);
        if named == default_agent {
            assert(text::matches_at(line, first, i));
        } else {
            if text::matches_at(line, first, i) {
                assert(named.subrange(0, default_agent.len() as int) =~= line.subrange(
                    i,
                    i + first.len(),
                ).skip(7));
                assert(first.skip(7) =~= default_agent);
                assert(text::starts_with(named, default_agent));
            }
            assert(text::matches_at(line, second, i));
        }
        let n = agent_field(line, default_agent, i)->Some_0;
        assert(i + n == line.len());
        assert(agents_from(line, default_agent, agent, i + n) =~= Seq::<char>::empty());
        assert(indent.skip(i) =~= Seq::<char>::empty());
        assert("agent: "@ + agent + Seq::<char>::empty() =~= indent.skip(i) + "agent: "@ + agent);
    }
}

/// An agent that the templates name. Where the default agent's name begins
/// that of Codex, Codex cannot be told from it.
pub open spec fn is_template_agent(named: Seq<char>, default_agent: Seq<char>) -> bool {
    named == default_agent || (named == "codex"@ && !text::starts_with("codex"@, default_agent))
}

/// Every line that names an agent of the templates names the given one
/// afterwards, whatever that one is called, and the lines before and after it
/// are rewritten by themselves.
pub proof fn law_every_agent_line_names_the_given_agent(
    before: Seq<char>,
    indent: Seq<char>,
    named: Seq<char>,
    after: Seq<char>,
    default_agent: Seq<char>,
    agent: Seq<char>,
)
    requires
        !default_agent.contains('\n'),
        is_template_agent(named, default_agent),
        before.len() == 0 || before.last() == '\n',
        after.len() == 0 || after[0] == '\n',
        forall|j: int|
            0 <= j < indent.len() ==> !text::matches_at(
                indent + "agent: "@ + named,
                "agent: "@,
                j,
            ),
    ensures
        with_agent(before + (indent + "agent: "@ + named + after), default_agent, Some(agent))
            == with_agent(before, default_agent, Some(agent)) + (indent + "agent: "@ + agent
            + with_agent(after, default_agent, Some(agent))),
{
    let line = indent + "agent: "@ + named;
    lemma_agents_of_parts(before, line + after, default_agent, agent, 0);
    lemma_agents_of_parts(line, after, default_agent, agent, 0);
    lemma_agent_line(indent, named, default_agent, agent, 0);
    assert(indent.skip(0) =~= indent);
}

/// A copy of a file under one directory to the same place under another.
pub open spec fn is_tree_copy(
    files: Seq<Seq<char>>,
    src: Seq<char>,
    dst: Seq<char>,
    item: (Seq<char>, Seq<char>),
) -> bool {
    &&& files.contains(item.0)
    &&& below(src, item.0) matches Some(rest) && item.1 == paths::join_path(dst, rest)
}

pub proof fn lemma_tree_copies(files: Seq<Seq<char>>, src: Seq<char>, dst: Seq<char>)
    ensures
        forall|k: int|
            0 <= k < tree_copies(files, src, dst).len() ==> is_tree_copy(
                files,
                src,
                dst,
                #[trigger] tree_copies(files, src, dst)[k],
            ),
        forall|f: Seq<char>|
            #![trigger below(src, f)]
            files.contains(f) && below(src, f) is Some ==> tree_copies(files, src, dst).contains(
                (f, paths::join_path(dst, below(src, f)->Some_0)),
            ),
    decreases files.len(),
{
    if files.len() > 0 {
        let front = files.drop_last();
        lemma_tree_copies(front, src, dst);
        let c0 = tree_copies(front, src, dst);
        let c1 = tree_copies(files, src, dst);
        assert forall|k: int| 0 <= k < c1.len() implies is_tree_copy(
            files,
            src,
            dst,
            #[trigger] c1[k],
        ) by {
            if k < c0.len() {
                assert(c1[k] == c0[k]);
                assert(is_tree_copy(front, src, dst, c0[k]));
                let i = choose|i: int| 0 <= i < front.len() && front[i] == c0[k].0;
                assert(files[i] == c1[k].0);
            } else {
                assert(files[files.len() - 1] == c1[k].0);
            }
        }
        assert forall|f: Seq<char>|
            #![trigger below(src, f)]
            files.contains(f) && below(src, f) is Some implies c1.contains(
            (f, paths::join_path(dst, below(src, f)->Some_0)),
        ) by {
            let pair = (f, paths::join_path(dst, below(src, f)->Some_0));
            let i = choose|i: int| 0 <= i < files.len() && files[i] == f;
            if i < front.len() {
                assert(front[i] == f);
                assert(c0.contains(pair));
                let k = choose|k: int| 0 <= k < c0.len() && c0[k] == pair;
                assert(c1[k] == pair);
            } else {
                assert(c1[c1.len() - 1] == pair);
            }
        }
    }
}

/// A copied tree holds the files of its source and no others, each at the
/// same place below the destination.
pub proof fn law_copied_trees_keep_their_shape(listing: Listing, src: Seq<char>, dst: Seq<char>)
    ensures
        forall|item: (Seq<char>, Seq<char>)|
            tree_copies(text::views(listing.files@), src, dst).contains(item) <==> is_tree_copy(
                text::views(listing.files@),
                src,
                dst,
                item,
            ),
{
    let files = text::views(listing.files@);
    lemma_tree_copies(files, src, dst);
    assert forall|item: (Seq<char>, Seq<char>)|
        tree_copies(files, src, dst).contains(item) <==> is_tree_copy(files, src, dst, item) by {
        if tree_copies(files, src, dst).contains(item) {
            let k = choose|k: int|
                0 <= k < tree_copies(files, src, dst).len() && tree_copies(files, src, dst)[k]
                    == item;
            assert(is_tree_copy(files, src, dst, tree_copies(files, src, dst)[k]));
        }
        if is_tree_copy(files, src, dst, item) {
            assert(below(src, item.0) is Some);
        }
    }
}

/// What is joined to a directory lies below it.
proof fn lemma_below_joined(dir: Seq<char>, name: Seq<char>)
    requires
        name.len() > 0,
        name[0] != '/',
    ensures
        below(dir, paths::join_path(dir, name)) == Some(name),
{
    let prefix = paths::join_path(dir, Seq::empty());
    let path = paths::join_path(dir, name);
    assert(path =~= prefix + name);
    assert(path.subrange(0, prefix.len() as int) =~= prefix);
    assert(path.skip(prefix.len() as int) =~= name);
}

/// A name without slashes is the segment in progress behind what was read.
proof fn lemma_segment(before: Seq<char>, name: Seq<char>)
    requires
        !name.contains('/'),
    ensures
        paths::segment_state(before + name) == (
            paths::segment_state(before).0,
            paths::segment_state(before).1 + name,
        ),
    decreases name.len(),
{
    if name.len() == 0 {
        assert(before + name =~= before);
        assert(paths::segment_state(before).1 + name =~= paths::segment_state(before).1);
    } else {
        let front = name.drop_last();
        assert(!front.contains('/')) by {
            if front.contains('/') {
                let i = choose|i: int| 0 <= i < front.len() && front[i] == '/';
                assert(name[i] == '/');
            }
        }
        lemma_segment(before, front);
        assert((before + name).drop_last() =~= before + front);
        assert((before + name).last() == name.last());
        assert(name.last() != '/') by {
            assert(name[name.len() - 1] == name.last());
        }
        assert((paths::segment_state(before).1 + front).push(name.last())
            =~= paths::segment_state(before).1 + name);
    }
}

/// The final component of a prompt is its name in its directory.
proof fn lemma_prompt_name(project_root: Seq<char>, path: Seq<char>, name: Seq<char>)
    requires
        child(paths::team_config_dir_path(project_root), path) == Some(name),
        paths::extension(path) == Some("md"@),
    ensures
        paths::file_name(path) == Some(name),
        name.len() > 0,
        name[0] != '/',
        paths::join_path(paths::team_config_dir_path(project_root), name) == path,
{
    let dir = paths::team_config_dir_path(project_root);
    let prefix = paths::join_path(dir, Seq::empty());
    reveal_strlit("team_config");
    let last = "team_config"@;
    let base = paths::join_path(paths::batty_dir(project_root), Seq::empty());
    assert(dir =~= base + last);
    assert(dir.last() == 'g');
    assert(prefix =~= dir.push('/'));
    assert(path.subrange(0, prefix.len() as int) == prefix);
    assert(path =~= prefix + name);
    assert(name[0] != '/') by {
        assert(name.contains(name[0]));
    }
    assert(paths::join_path(dir, name) =~= path);
    assert(!last.contains('/'));
    lemma_segment(prefix, name);
    assert(prefix.drop_last() =~= dir);
    assert(paths::segment_state(prefix).1 =~= Seq::<char>::empty());
    assert(paths::segment_state(prefix).1 + name =~= name);
    let done = paths::segment_state(prefix).0;
    assert(paths::segments(path) == done.push(name));
    assert(done.push(name).drop_last() =~= done);
    if name == seq!['.'] {
        lemma_config_segment(project_root);
        assert(done.last() == last);
        assert(paths::is_named(last)) by {
            if last == seq!['.'] {
                assert(last.len() == 1);
            }
        }
        reveal_with_fuel(paths::last_named, 2);
        assert(!paths::is_named(name));
        assert(paths::last_named(done) == Some(last));
        assert(paths::last_named(paths::segments(path)) == Some(last));
        reveal_with_fuel(paths::last_dot, 12);
        assert(paths::last_dot(last) is None);
        assert(false);
    }
}

/// The last segment of the configuration's directory.
proof fn lemma_config_segment(project_root: Seq<char>)
    ensures
        paths::segment_state(paths::team_config_dir_path(project_root).push('/')).0.last()
            == "team_config"@,
{
    reveal_strlit("team_config");
    reveal_strlit(".batty");
    let last = "team_config"@;
    let dir = paths::team_config_dir_path(project_root);
    let batty = paths::batty_dir(project_root);
    assert(batty.last() == 'y') by {
        assert(".batty"@.len() == 6 && ".batty"@[5] == 'y');
    }
    let base = batty.push('/');
    assert(dir =~= base + last);
    assert(!last.contains('/'));
    lemma_segment(base, last);
    assert(base.drop_last() =~= batty);
    assert(paths::segment_state(base).1 =~= Seq::<char>::empty());
    assert(paths::segment_state(base).1 + last =~= last);
    assert(dir.push('/').drop_last() =~= dir);
}

proof fn lemma_prompt_copies(prompts: Seq<Seq<char>>, dst: Seq<char>)
    ensures
        prompt_copies(prompts, dst).len() == prompts.len(),
        forall|i: int|
            0 <= i < prompts.len() && paths::file_name(prompts[i]) is Some ==> (
            #[trigger] prompt_copies(prompts, dst)[i]) == (
                prompts[i],
                paths::join_path(dst, paths::file_name(prompts[i])->Some_0),
            ),
    decreases prompts.len(),
{
    if prompts.len() > 0 {
        let front = prompts.drop_last();
        lemma_prompt_copies(front, dst);
        assert forall|i: int|
            0 <= i < prompts.len() && paths::file_name(prompts[i]) is Some implies (
        #[trigger] prompt_copies(prompts, dst)[i]) == (
            prompts[i],
            paths::join_path(dst, paths::file_name(prompts[i])->Some_0),
        ) by {
            if i < front.len() {
                assert(front[i] == prompts[i]);
                assert(prompt_copies(prompts, dst)[i] == prompt_copies(front, dst)[i]);
            }
        }
    }
}

/// A template brings back what was exported to it: once the exported files
/// are in the template, setting up a team from it copies each of them to
/// where it came from.
pub proof fn law_exported_templates_are_restored(
    project_root: Seq<char>,
    template_dir: Seq<char>,
    listing: Listing,
    exported: Seq<(Seq<char>, Seq<char>)>,
    later: Listing,
)
    requires
        is_template_export(project_root, template_dir, listing, exported),
        forall|k: int| 0 <= k < exported.len() ==> later.has_file((#[trigger] exported[k]).1),
    ensures
        forall|k: int|
            0 <= k < exported.len() ==> tree_copies(
                text::views(later.files@),
                template_dir,
                paths::team_config_dir_path(project_root),
            ).contains(((#[trigger] exported[k]).1, exported[k].0)),
{
    let dir = paths::team_config_dir_path(project_root);
    let files = text::views(later.files@);
    let prompts = choose|prompts: Seq<Seq<char>>|
        {
            &&& #[trigger] text::is_increasing(prompts)
            &&& forall|p: Seq<char>| #[trigger]
                prompts.contains(p) <==> is_prompt(listing, dir, p)
            &&& exported == seq![
                (team_yaml(project_root), paths::join_path(template_dir, "team.yaml"@)),
            ] + prompt_copies(prompts, template_dir)
        };
    lemma_tree_copies(files, template_dir, dir);
    lemma_prompt_copies(prompts, template_dir);
    assert forall|k: int| 0 <= k < exported.len() implies tree_copies(
        files,
        template_dir,
        dir,
    ).contains(((#[trigger] exported[k]).1, exported[k].0)) by {
        assert(later.has_file(exported[k].1));
        if k == 0 {
            reveal_strlit("team.yaml");
            lemma_below_joined(template_dir, "team.yaml"@);
            assert(below(template_dir, exported[k].1) == Some("team.yaml"@));
        } else {
            let p = prompts[k - 1];
            assert(prompts.contains(p));
            assert(is_prompt(listing, dir, p));
            let name = child(dir, p)->Some_0;
            lemma_prompt_name(project_root, p, name);
            lemma_below_joined(template_dir, name);
            assert(exported[k] == prompt_copies(prompts, template_dir)[k - 1]);
            assert(below(template_dir, exported[k].1) == Some(name));
        }
    }
}

} // verus!
