//! Who runs a tool: the agent, or the client behind the proxy.

use vstd::prelude::*;

pub use vstd::hash_set::StringHashSet;

verus! {

/// Where a tool call goes.
#[derive(Debug, Clone, Copy, PartialEq, Eq, Structural)]
pub enum ToolRoute {
    /// The client runs the tool.
    CodexLocal,
    /// The agent runs the tool itself.
    Agent,
}

/// Where a call of the tool `name` goes, given the tools that the agent runs.
pub open spec fn route(name: Seq<char>, agent_tools: Set<Seq<char>>) -> ToolRoute {
    if agent_tools.contains(name) {
        ToolRoute::Agent
    } else {
        ToolRoute::CodexLocal
    }
}

/// Where a call of the tool `name` goes, given the tools that the agent runs.
pub fn route_tool(name: &str, agent_tools: &StringHashSet) -> (r: ToolRoute)
    ensures
        r == route(name@, agent_tools@),
{
    if agent_tools.contains(name) {
        ToolRoute::Agent
    } else {
        ToolRoute::CodexLocal
    }
}

} // verus!
