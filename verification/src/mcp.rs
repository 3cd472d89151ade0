//! What the MCP service offers: its tool list and a summary of the
//! configuration it governs.
use vstd::prelude::*;
use crate::config::AnemoiConfig;
use crate::text::owned;

verus! {

/// One tool the MCP service exposes.
#[derive(Debug, PartialEq, Eq)]
pub struct ToolDescriptor {
    pub name: String,
}

impl ToolDescriptor {
    /// The tool called `name`.
    pub fn new(name: &str) -> (r: Self)
        ensures
            r.name@ == name@,
    {
        ToolDescriptor { name: owned(name) }
    }
}

/// The tools of the MCP service, in the order they are listed.
pub open spec fn tool_names() -> Seq<Seq<char>> {
    seq!["get_status"@, "list_residents"@, "decide"@, "explain_decision"@, "check_policy"@]
}

/// The MCP service's tools: status, residents, decide, explain a decision,
/// check the policy.
pub fn mcp_tools() -> (r: Vec<ToolDescriptor>)
    ensures
        r@.map_values(|t: ToolDescriptor| t.name@) == tool_names(),
{
    let mut v: Vec<ToolDescriptor> = Vec::new();
    v.push(ToolDescriptor::new("get_status"));
    v.push(ToolDescriptor::new("list_residents"));
    v.push(ToolDescriptor::new("decide"));
    v.push(ToolDescriptor::new("explain_decision"));
    v.push(ToolDescriptor::new("check_policy"));
    proof {
        assert(v@.map_values(|t: ToolDescriptor| t.name@) =~= tool_names());
    }
    v
}

/// How much the configuration governs.
#[derive(Debug, Clone, Copy, PartialEq, Eq, Structural)]
pub struct McpStatus {
    pub domains: usize,
    pub models: usize,
    pub runtimes: usize,
    pub residency_groups: usize,
}

/// The number of configured domains, models, runtimes and groups.
pub fn mcp_status(cfg: &AnemoiConfig) -> (r: McpStatus)
    ensures
        r.domains == cfg.domains@.len(),
        r.models == cfg.models@.len(),
        r.runtimes == cfg.runtimes@.len(),
        r.residency_groups == cfg.residency_groups@.len(),
{
    McpStatus {
        domains: cfg.domains.len(),
        models: cfg.models.len(),
        runtimes: cfg.runtimes.len(),
        residency_groups: cfg.residency_groups.len(),
    }
}

} // verus!
