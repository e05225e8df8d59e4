//! The members of a team.

use vstd::prelude::*;

verus! {

/// What a member does in the team.
#[derive(Clone, Copy, Debug, PartialEq, Eq, Structural)]
pub enum RoleType {
    User,
    Architect,
    Manager,
    Engineer,
}

/// One member of the resolved hierarchy.
#[derive(Debug)]
pub struct MemberInstance {
    pub name: String,
    pub role_name: String,
    pub role_type: RoleType,
    pub agent: Option<String>,
    pub prompt: Option<String>,
    pub reports_to: Option<String>,
    pub use_worktrees: bool,
}

/// The names of the agent that members run by default, and of its files.
#[derive(Debug)]
pub struct ClaudeNames {
    /// The agent, in a configuration.
    pub agent: String,
    /// The agent, in the launch state.
    pub adapter: String,
    /// The directory in which the agent keeps its files.
    pub home: String,
    /// The file in which a project guides the agent.
    pub guide: String,
}

impl ClaudeNames {
    /// The agent is not named like one of the others.
    pub open spec fn wf(self) -> bool {
        !is_other_agent(self.agent@) && !is_other_agent(self.adapter@)
    }
}

/// The name of an agent that is not the default.
pub open spec fn is_other_agent(name: Seq<char>) -> bool {
    name == "codex"@ || name == "codex-cli"@ || name == "kiro"@ || name == "kiro-cli"@
}

} // verus!
