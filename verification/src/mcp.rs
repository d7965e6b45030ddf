//! Status reporting for the sidecar server process. The process handle
//! itself lives with the caller; the library decides what a probe outcome
//! means and whether the stored handle is stale.
use vstd::prelude::*;

verus! {

#[derive(Clone, Copy, Debug, PartialEq, Eq, Structural)]
pub enum McpServerStatus {
    Running,
    Stopped,
}

/// What the client is told about the sidecar server.
pub struct McpStatusInfo {
    pub status: McpServerStatus,
    pub pid: Option<u32>,
}

/// The outcome of probing a held child process without blocking.
#[derive(Clone, Copy, Debug, PartialEq, Eq, Structural)]
pub enum ChildProbe {
    /// No process is held.
    NotHeld,
    /// The process has already exited.
    Exited,
    /// The process is still running.
    StillRunning,
    /// The probe itself failed.
    ProbeFailed,
}

/// Interprets a probe of the held process: a running child reports
/// `Running` with its pid; an exited child, a failed probe, or no child at
/// all report `Stopped`, and a stale handle must be dropped.
pub fn mcp_status_decision(probe: ChildProbe, pid: u32) -> (r: (McpStatusInfo, bool))
    ensures
        probe == ChildProbe::StillRunning ==> r.0.status == McpServerStatus::Running && r.0.pid
            == Some(pid) && !r.1,
        probe != ChildProbe::StillRunning ==> r.0.status == McpServerStatus::Stopped
            && r.0.pid is None,
        r.1 == (probe == ChildProbe::Exited || probe == ChildProbe::ProbeFailed),
{
    match probe {
        ChildProbe::StillRunning => (
            McpStatusInfo { status: McpServerStatus::Running, pid: Some(pid) },
            false,
        ),
        ChildProbe::NotHeld => (McpStatusInfo { status: McpServerStatus::Stopped, pid: None }, false),
        ChildProbe::Exited => (McpStatusInfo { status: McpServerStatus::Stopped, pid: None }, true),
        ChildProbe::ProbeFailed => (
            McpStatusInfo { status: McpServerStatus::Stopped, pid: None },
            true,
        ),
    }
}

} // verus!
