//! The policy message that a sandbox receives from the server, as far as the sandbox
//! reads it. What the message says about the network is not part of it: the sandbox
//! decides its network mode by itself.

use vstd::prelude::*;

verus! {

/// Policy of one sandbox.
#[derive(Debug, Clone)]
pub struct SandboxPolicy {
    pub version: u32,
    pub filesystem: Option<FilesystemPolicy>,
    pub landlock: Option<LandlockPolicy>,
    pub process: Option<ProcessPolicy>,
}

impl Default for SandboxPolicy {
    fn default() -> (r: Self)
        ensures
            r == (SandboxPolicy { version: 0, filesystem: None, landlock: None, process: None }),
    {
        SandboxPolicy { version: 0, filesystem: None, landlock: None, process: None }
    }
}

/// Filesystem access of one sandbox.
#[derive(Debug, Clone)]
pub struct FilesystemPolicy {
    pub include_workdir: bool,
    pub read_only: Vec<String>,
    pub read_write: Vec<String>,
}

/// How strictly filesystem access is enforced.
#[derive(Debug, Clone)]
pub struct LandlockPolicy {
    pub compatibility: String,
}

/// Whom the sandboxed process runs as.
#[derive(Debug, Clone)]
pub struct ProcessPolicy {
    pub run_as_user: String,
    pub run_as_group: String,
}

} // verus!
