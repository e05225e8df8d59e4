//! Isolation of the resources of each member's tool servers.
//!
//! Agents start their tool servers from their own configuration. A stable
//! namespace for each member, handed over in environment variables, keeps
//! these servers apart.

use vstd::prelude::*;
use vstd::string::*;

use crate::paths;
use crate::paths::{file_name_of, joined};
use crate::shell;
use crate::shell::shell_quote;
use crate::text;
use crate::text::{copy, decimal_string, join_strings, split_alnum, string_of_all};

verus! {

/// How many ports a member has.
pub const MCP_PORT_BLOCK_SIZE: u16 = 20;

/// The first port of all.
pub const MCP_PORT_MIN: u16 = 46000;

/// How many blocks of ports there are.
pub const MCP_PORT_BLOCK_COUNT: u16 = 500;

/// What keeps the tool servers of a member apart from those of others.
#[derive(Clone, Debug)]
pub struct McpIsolation {
    pub namespace: String,
    pub resource_dir: String,
    pub shared_lock_dir: String,
    pub shared_lock: String,
    pub port_base: u16,
}

// ---------------------------------------------------------------------------
// Namespaces

/// The runs of letters and digits of a text, in lower case, with a dash
/// between each two.
pub open spec fn sanitized(s: Seq<char>) -> Seq<char> {
    let runs = text::words(text::gapped(s));
    if runs.len() == 0 {
        "default"@
    } else {
        text::join(runs, "-"@)
    }
}

/// Turns a text into a part of a namespace.
pub fn sanitize_namespace_part(input: &str) -> (r: String)
    ensures
        r@ == sanitized(input@),
{
    let runs: Vec<String> = split_alnum(input);
    assert(text::views(runs@).len() == runs@.len());
    if runs.len() == 0 {
        copy("default")
    } else {
        join_strings(&runs, "-")
    }
}

/// The 64-bit FNV-1a hash of some bytes.
pub open spec fn fnv(bytes: Seq<u8>) -> u64
    decreases bytes.len(),
{
    if bytes.len() == 0 {
        0xcbf29ce484222325u64
    } else {
        (fnv(bytes.drop_last()) ^ (bytes.last() as u64)).wrapping_mul(0x100000001b3u64)
    }
}

/// A hash that never changes.
pub fn stable_hash(input: &str) -> (r: u64)
    ensures
        r == fnv(vstd::utf8::encode_utf8(input@)),
{
    let bytes: &[u8] = input.as_bytes();
    let mut hash: u64 = 0xcbf29ce484222325u64;
    let mut i: usize = 0;
    while i < bytes.len()
        invariant
            i <= bytes@.len(),
            hash == fnv(bytes@.take(i as int)),
        decreases bytes@.len() - i,
    {
        assert(bytes@.take(i + 1).drop_last() == bytes@.take(i as int));
        hash = (hash ^ (bytes[i] as u64)).wrapping_mul(0x100000001b3u64);
        i += 1;
    }
    assert(bytes@.take(i as int) == bytes@);
    hash
}

/// The first port of the block of a namespace.
pub open spec fn port_of(namespace: Seq<char>) -> int {
    46000 + (fnv(vstd::utf8::encode_utf8(namespace)) % 500) * 20
}

/// The first port of the block of a namespace.
pub fn port_base_for(namespace: &str) -> (r: u16)
    ensures
        r == port_of(namespace@),
{
    let block: u64 = stable_hash(namespace) % (MCP_PORT_BLOCK_COUNT as u64);
    MCP_PORT_MIN + (block as u16) * MCP_PORT_BLOCK_SIZE
}

/// The namespace of a member.
pub open spec fn namespace_of(project_root: Seq<char>, member: Seq<char>) -> Seq<char> {
    let slug = match paths::file_name(project_root) {
        Some(name) => name,
        None => "default"@,
    };
    sanitized(slug) + "-"@ + sanitized(member)
}

/// `<root>/.batty/mcp`.
pub open spec fn mcp_dir(project_root: Seq<char>) -> Seq<char> {
    paths::join_path(paths::join_path(project_root, ".batty"@), "mcp"@)
}

impl McpIsolation {
    /// Every field is as the member's name and the project's root say.
    pub open spec fn is_for(self, project_root: Seq<char>, member: Seq<char>) -> bool {
        &&& self.namespace@ == namespace_of(project_root, member)
        &&& self.resource_dir@ == paths::join_path(
            paths::join_path(mcp_dir(project_root), "namespaces"@),
            member,
        )
        &&& self.shared_lock_dir@ == paths::join_path(mcp_dir(project_root), "shared-locks"@)
        &&& self.shared_lock@ == paths::join_path(self.shared_lock_dir@, "mcp-shared.lock"@)
        &&& self.port_base == port_of(self.namespace@)
    }

    /// The isolation of a member.
    pub fn for_member(project_root: &str, member_name: &str) -> (r: McpIsolation)
        ensures
            r.is_for(project_root@, member_name@),
    {
        let slug: String = match file_name_of(project_root) {
            Some(name) => string_of_all(&name),
            None => copy("default"),
        };
        let namespace: String = sanitize_namespace_part(slug.as_str()).concat("-").concat(
            sanitize_namespace_part(member_name).as_str(),
        );
        let dir: String = joined(joined(project_root, ".batty").as_str(), "mcp");
        let shared_lock_dir: String = joined(dir.as_str(), "shared-locks");
        let port_base: u16 = port_base_for(namespace.as_str());
        McpIsolation {
            namespace,
            resource_dir: joined(joined(dir.as_str(), "namespaces").as_str(), member_name),
            shared_lock: joined(shared_lock_dir.as_str(), "mcp-shared.lock"),
            shared_lock_dir,
            port_base,
        }
    }

    /// The directories that have to exist.
    pub fn dirs(&self) -> (r: Vec<String>)
        ensures
            text::views(r@) == seq![self.resource_dir@, self.shared_lock_dir@],
    {
        let mut out: Vec<String> = Vec::new();
        out.push(copy(self.resource_dir.as_str()));
        out.push(copy(self.shared_lock_dir.as_str()));
        assert(text::views(out@) =~= seq![self.resource_dir@, self.shared_lock_dir@]);
        out
    }

    /// The variables that a member's process is started with.
    pub open spec fn env_pairs(self) -> Seq<(Seq<char>, Seq<char>)> {
        let port = text::decimal(self.port_base as nat);
        seq![
            ("BATTY_MCP_NAMESPACE"@, self.namespace@),
            ("BATTY_MCP_RESOURCE_DIR"@, self.resource_dir@),
            ("BATTY_MCP_SHARED_LOCK_DIR"@, self.shared_lock_dir@),
            ("BATTY_MCP_SHARED_LOCK"@, self.shared_lock@),
            ("BATTY_MCP_PORT_BASE"@, port),
            ("BATTY_MCP_PORT_RANGE"@, text::decimal(20)),
            ("MCP_NAMESPACE"@, self.namespace@),
            ("MCP_RESOURCE_DIR"@, self.resource_dir@),
            ("MCP_SHARED_LOCK"@, self.shared_lock@),
            ("MCP_PORT_BASE"@, port),
        ]
    }

    /// The variables that a member's process is started with, each with its
    /// value. The last four are aliases for configurations that know nothing
    /// of this program.
    pub fn env(&self) -> (r: Vec<(String, String)>)
        ensures
            pair_views(r@) == self.env_pairs(),
    {
        let port: String = decimal_string(self.port_base as u64);
        let range: String = decimal_string(MCP_PORT_BLOCK_SIZE as u64);
        let mut out: Vec<(String, String)> = Vec::new();
        out.push((copy("BATTY_MCP_NAMESPACE"), copy(self.namespace.as_str())));
        out.push((copy("BATTY_MCP_RESOURCE_DIR"), copy(self.resource_dir.as_str())));
        out.push((copy("BATTY_MCP_SHARED_LOCK_DIR"), copy(self.shared_lock_dir.as_str())));
        out.push((copy("BATTY_MCP_SHARED_LOCK"), copy(self.shared_lock.as_str())));
        out.push((copy("BATTY_MCP_PORT_BASE"), copy(port.as_str())));
        out.push((copy("BATTY_MCP_PORT_RANGE"), range));
        out.push((copy("MCP_NAMESPACE"), copy(self.namespace.as_str())));
        out.push((copy("MCP_RESOURCE_DIR"), copy(self.resource_dir.as_str())));
        out.push((copy("MCP_SHARED_LOCK"), copy(self.shared_lock.as_str())));
        out.push((copy("MCP_PORT_BASE"), port));
        assert(pair_views(out@) =~= self.env_pairs());
        out
    }

    /// The lines that a launch script exports.
    pub open spec fn exports(self) -> Seq<char> {
        "mcp_resource_dir="@ + shell::quoted(self.resource_dir@) + "\nmcp_shared_lock_dir="@
            + shell::quoted(self.shared_lock_dir@)
            + "\nmkdir -p \"$mcp_resource_dir\" \"$mcp_shared_lock_dir\"\nexport BATTY_MCP_NAMESPACE="@
            + shell::quoted(self.namespace@)
            + "\nexport BATTY_MCP_RESOURCE_DIR=\"$mcp_resource_dir\"\nexport BATTY_MCP_SHARED_LOCK_DIR=\"$mcp_shared_lock_dir\"\nexport BATTY_MCP_SHARED_LOCK="@
            + shell::quoted(self.shared_lock@) + "\nexport BATTY_MCP_PORT_BASE='"@ + text::decimal(
            self.port_base as nat,
        ) + "'\nexport BATTY_MCP_PORT_RANGE='"@ + text::decimal(20)
            + "'\nexport MCP_NAMESPACE=\"${MCP_NAMESPACE:-$BATTY_MCP_NAMESPACE}\"\nexport MCP_RESOURCE_DIR=\"${MCP_RESOURCE_DIR:-$BATTY_MCP_RESOURCE_DIR}\"\nexport MCP_SHARED_LOCK=\"${MCP_SHARED_LOCK:-$BATTY_MCP_SHARED_LOCK}\"\nexport MCP_PORT_BASE=\"${MCP_PORT_BASE:-$BATTY_MCP_PORT_BASE}\"\n"@
    }

    /// The lines that a launch script exports.
    pub fn shell_exports(&self) -> (r: String)
        ensures
            r@ == self.exports(),
    {
        copy("mcp_resource_dir=").concat(shell_quote(self.resource_dir.as_str()).as_str()).concat(
            "\nmcp_shared_lock_dir=",
        ).concat(shell_quote(self.shared_lock_dir.as_str()).as_str()).concat(
            "\nmkdir -p \"$mcp_resource_dir\" \"$mcp_shared_lock_dir\"\nexport BATTY_MCP_NAMESPACE=",
        ).concat(shell_quote(self.namespace.as_str()).as_str()).concat(
            "\nexport BATTY_MCP_RESOURCE_DIR=\"$mcp_resource_dir\"\nexport BATTY_MCP_SHARED_LOCK_DIR=\"$mcp_shared_lock_dir\"\nexport BATTY_MCP_SHARED_LOCK=",
        ).concat(shell_quote(self.shared_lock.as_str()).as_str()).concat(
            "\nexport BATTY_MCP_PORT_BASE='",
        ).concat(decimal_string(self.port_base as u64).as_str()).concat(
            "'\nexport BATTY_MCP_PORT_RANGE='",
        ).concat(decimal_string(MCP_PORT_BLOCK_SIZE as u64).as_str()).concat(
            "'\nexport MCP_NAMESPACE=\"${MCP_NAMESPACE:-$BATTY_MCP_NAMESPACE}\"\nexport MCP_RESOURCE_DIR=\"${MCP_RESOURCE_DIR:-$BATTY_MCP_RESOURCE_DIR}\"\nexport MCP_SHARED_LOCK=\"${MCP_SHARED_LOCK:-$BATTY_MCP_SHARED_LOCK}\"\nexport MCP_PORT_BASE=\"${MCP_PORT_BASE:-$BATTY_MCP_PORT_BASE}\"\n",
        )
    }
}

/// The texts of some pairs.
pub open spec fn pair_views(v: Seq<(String, String)>) -> Seq<(Seq<char>, Seq<char>)> {
    v.map_values(|p: (String, String)| (p.0@, p.1@))
}

// ---------------------------------------------------------------------------
// Laws

/// The blocks of ports never overlap, and lie above the system's ports: two
/// namespaces share all their ports or none.
pub proof fn law_port_blocks_are_apart(a: Seq<char>, b: Seq<char>)
    ensures
        46000 <= port_of(a) && port_of(a) + 20 <= 56000,
        port_of(a) != port_of(b) ==> port_of(a) + 20 <= port_of(b) || port_of(b) + 20 <= port_of(a),
{
}

/// Resources of two members of one project are apart, and the lock is one.
pub proof fn law_members_are_isolated(
    project_root: Seq<char>,
    a: Seq<char>,
    b: Seq<char>,
    x: McpIsolation,
    y: McpIsolation,
)
    requires
        a != b,
        a.len() > 0 ==> a[0] != '/',
        b.len() > 0 ==> b[0] != '/',
        x.is_for(project_root, a),
        y.is_for(project_root, b),
    ensures
        x.resource_dir@ != y.resource_dir@,
        x.shared_lock@ == y.shared_lock@,
        x.shared_lock_dir@ == y.shared_lock_dir@,
{
    let base = paths::join_path(mcp_dir(project_root), "namespaces"@);
    let front = if base.len() == 0 || base.last() == '/' {
        base
    } else {
        base.push('/')
    };
    assert(x.resource_dir@ == front + a);
    assert(y.resource_dir@ == front + b);
    assert(x.resource_dir@.skip(front.len() as int) == a);
    assert(y.resource_dir@.skip(front.len() as int) == b);
}

/// What a namespace is made of.
pub open spec fn is_namespace_char(c: char) -> bool {
    ('a' <= c && c <= 'z') || ('0' <= c && c <= '9') || c == '-'
}

/// Every character is one of a namespace.
pub open spec fn is_safe(s: Seq<char>) -> bool {
    forall|i: int| 0 <= i < s.len() ==> is_namespace_char(#[trigger] s[i])
}

proof fn lemma_words_safe(s: Seq<char>)
    ensures
        forall|i: int|
            0 <= i < text::word_state(text::gapped(s)).0.len() ==> is_safe(
                #[trigger] text::word_state(text::gapped(s)).0[i],
            ),
        is_safe(text::word_state(text::gapped(s)).1),
    decreases s.len(),
{
    if s.len() > 0 {
        lemma_words_safe(s.drop_last());
        assert(text::gapped(s).drop_last() == text::gapped(s.drop_last()));
    }
}

proof fn lemma_join_safe(parts: Seq<Seq<char>>)
    requires
        forall|i: int| 0 <= i < parts.len() ==> is_safe(#[trigger] parts[i]),
    ensures
        is_safe(text::join(parts, "-"@)),
    decreases parts.len(),
{
    reveal_strlit("-");
    if parts.len() > 1 {
        let front = parts.drop_last();
        assert forall|i: int| 0 <= i < front.len() implies is_safe(#[trigger] front[i]) by {
            assert(front[i] == parts[i]);
        }
        lemma_join_safe(front);
        assert(is_safe(parts[parts.len() - 1]));
    } else if parts.len() == 1 {
        assert(is_safe(parts[0]));
    }
}

proof fn lemma_sanitized_safe(s: Seq<char>)
    ensures
        is_safe(sanitized(s)),
{
    reveal_strlit("default");
    lemma_words_safe(s);
    let runs = text::words(text::gapped(s));
    assert forall|i: int| 0 <= i < runs.len() implies is_safe(#[trigger] runs[i]) by {
    }
    lemma_join_safe(runs);
}

/// A namespace is made of lower-case letters, digits and dashes, whatever the
/// names of the project and the member are.
pub proof fn law_namespaces_are_safe(project_root: Seq<char>, member: Seq<char>)
    ensures
        is_safe(namespace_of(project_root, member)),
{
    reveal_strlit("-");
    lemma_sanitized_safe(member);
    let slug = match paths::file_name(project_root) {
        Some(name) => name,
        None => "default"@,
    };
    lemma_sanitized_safe(slug);
}

/// The hash starts from its offset, and takes in one byte after the other: each
/// is mixed in and the result multiplied by the prime, in 64 bits.
pub proof fn law_hash_takes_in_every_byte(bytes: Seq<u8>, b: u8)
    ensures
        fnv(Seq::empty()) == 14695981039346656037,
        fnv(bytes.push(b)) == ((fnv(bytes) ^ (b as u64)) * 1099511628211) % 0x1_0000_0000_0000_0000,
{
    assert(bytes.push(b).drop_last() =~= bytes);
}

/// The process of a member is told its own namespace, directory, lock and
/// ports, each under a name of this program, and all but the directory of locks
/// and the number of ports under a common name.
pub proof fn law_processes_are_told_their_resources(
    project_root: Seq<char>,
    member: Seq<char>,
    x: McpIsolation,
)
    requires
        x.is_for(project_root, member),
    ensures
        ({
            let dir = paths::join_path(paths::join_path(project_root, ".batty"@), "mcp"@);
            let own = paths::join_path(paths::join_path(dir, "namespaces"@), member);
            let locks = paths::join_path(dir, "shared-locks"@);
            let lock = paths::join_path(locks, "mcp-shared.lock"@);
            let env = x.env_pairs();
            &&& env.len() == 10
            &&& env.contains(("BATTY_MCP_NAMESPACE"@, x.namespace@))
            &&& env.contains(("MCP_NAMESPACE"@, x.namespace@))
            &&& env.contains(("BATTY_MCP_RESOURCE_DIR"@, own))
            &&& env.contains(("MCP_RESOURCE_DIR"@, own))
            &&& env.contains(("BATTY_MCP_SHARED_LOCK_DIR"@, locks))
            &&& env.contains(("BATTY_MCP_SHARED_LOCK"@, lock))
            &&& env.contains(("MCP_SHARED_LOCK"@, lock))
            &&& env.contains(("BATTY_MCP_PORT_BASE"@, text::decimal(x.port_base as nat)))
            &&& env.contains(("MCP_PORT_BASE"@, text::decimal(x.port_base as nat)))
            &&& env.contains(("BATTY_MCP_PORT_RANGE"@, seq!['2', '0']))
            &&& x.port_base == port_of(x.namespace@)
        }),
{
    let env = x.env_pairs();
    assert(text::decimal(2) =~= seq!['2']);
    assert(text::decimal(20) =~= seq!['2', '0']);
    assert(env[0].0 == "BATTY_MCP_NAMESPACE"@);
    assert(env[1].0 == "BATTY_MCP_RESOURCE_DIR"@);
    assert(env[2].0 == "BATTY_MCP_SHARED_LOCK_DIR"@);
    assert(env[3].0 == "BATTY_MCP_SHARED_LOCK"@);
    assert(env[4].0 == "BATTY_MCP_PORT_BASE"@);
    assert(env[5].0 == "BATTY_MCP_PORT_RANGE"@);
    assert(env[6].0 == "MCP_NAMESPACE"@);
    assert(env[7].0 == "MCP_RESOURCE_DIR"@);
    assert(env[8].0 == "MCP_SHARED_LOCK"@);
    assert(env[9].0 == "MCP_PORT_BASE"@);
}

} // verus!
