//! The two records that cross the boundary to the tab UI: a registered
//! project, and the status of its backend.

use vstd::prelude::*;

verus! {

/// One registered project: a tab in the tab bar, backed by one code-server.
///
/// `env` names the transport: `"local"`, `"wsl"` (which uses `wsl_distro`)
/// or `"ssh"` (which uses `ssh_host`).
#[derive(Debug)]
pub struct Project {
    pub id: String,
    pub name: String,
    pub icon: String,
    pub env: String,
    pub wsl_distro: Option<String>,
    pub ssh_host: Option<String>,
}

/// A copy of an optional string.
pub fn clone_opt(o: &Option<String>) -> (r: Option<String>)
    ensures
        r == *o,
{
    match o {
        Some(s) => Some(s.clone()),
        None => None,
    }
}

impl Clone for Project {
    fn clone(&self) -> (r: Project)
        ensures
            r == *self,
    {
        Project {
            id: self.id.clone(),
            name: self.name.clone(),
            icon: self.icon.clone(),
            env: self.env.clone(),
            wsl_distro: clone_opt(&self.wsl_distro),
            ssh_host: clone_opt(&self.ssh_host),
        }
    }
}

/// The status of one project's backend.
#[derive(Debug)]
pub struct ServerStatus {
    pub project_id: String,
    pub port: u16,
    pub running: bool,
}

impl Clone for ServerStatus {
    fn clone(&self) -> (r: ServerStatus)
        ensures
            r == *self,
    {
        ServerStatus { project_id: self.project_id.clone(), port: self.port, running: self.running }
    }
}

} // verus!
