//! Data model of the script engine. No type keeps a secret: password steps
//! carry only **references** (a keyring `profileId` or a KeePass `uuid`).
use std::collections::HashMap;
use vstd::prelude::*;

verus! {

/// Most steps in a recipe: small recipes, not orchestration.
pub const MAX_STEPS: usize = 50;

/// Most runs kept in the run history; older ones are dropped when a new one
/// is saved (most recent first).
pub const MAX_RUN_HISTORY: usize = 30;

/// A saved script: name, Markdown description, target and the ordered list
/// of steps. `created_at`/`updated_at` are ISO 8601.
#[derive(Debug, Clone, PartialEq, Eq)]
pub struct Script {
    pub id: String,
    pub name: String,
    /// Free description in Markdown (optional).
    pub description: Option<String>,
    /// Default target of the script.
    pub target: TargetSpec,
    /// Steps in execution order.
    pub steps: Vec<Step>,
    pub created_at: String,
    pub updated_at: String,
}

/// Target of a script: a profile, a folder of profiles or an explicit list.
#[derive(Debug, Clone, PartialEq, Eq)]
pub enum TargetSpec {
    /// A single profile by id.
    Profile { profile_id: String },
    /// Every profile of a folder (`group`) inside a workspace.
    Folder { workspace_id: String, folder_path: String, recursive: bool },
    /// An explicit list of profile ids.
    Adhoc { profile_ids: Vec<String> },
}

/// A step of the script.
#[derive(Debug, Clone, PartialEq, Eq)]
pub enum Step {
    /// Sends `text` (resolving `${...}`) and a line break.
    Send { text: String },
    /// Waits for the end of the last command and captures its exit code.
    WaitPrompt,
    /// Reads until the output matches `pattern` or `timeout_ms` passes.
    WaitRegex { pattern: String, timeout_ms: u64 },
    /// Checks the exit code captured by the last `WaitPrompt`.
    ExpectExit { code: i32 },
    /// Sends the keyring password (`None` = the host's own).
    SendPasswordFromKeyring { profile_id: Option<String> },
    /// Sends the password of a KeePass entry.
    SendPasswordFromKeepass { uuid: String },
    /// Pauses `ms` milliseconds.
    Sleep { ms: u64 },
    /// Closes this host's channel and connection.
    Disconnect,
}

/// Fan-out mode of a run.
#[derive(Debug, Clone, Copy, PartialEq, Eq, Structural)]
pub enum RunMode {
    /// Every host at once (at most `concurrency` in flight).
    Parallel,
    /// One host first; if it ends well, the rest.
    Canary,
}

/// Alternative credentials of a run, used by every connection of the
/// fan-out instead of each profile's. Never saved with the scripts.
#[derive(Debug, Clone)]
pub enum RunCredentials {
    /// A master credential of the catalogue (by id).
    Master { id: String, username: Option<String> },
    /// A KeePass entry; an empty `username` means the entry's own.
    Keepass { uuid: String, username: Option<String> },
    /// User and password typed in when the run was launched.
    Manual { username: Option<String>, password: String },
}

/// Options of a run. `params` feed the substitution of the `send` steps
/// (as answers to `${ask:name}`).
#[derive(Debug, Clone)]
pub struct RunOptions {
    pub concurrency: u32,
    pub mode: RunMode,
    pub stop_on_error: bool,
    pub params: HashMap<String, String>,
    /// Alternative credentials for every host of the run (optional).
    pub credentials: Option<RunCredentials>,
}

/// Preview of a host: the commands that would run, secrets redacted.
#[derive(Debug, Clone, PartialEq, Eq)]
pub struct HostPreview {
    pub profile_id: String,
    pub host: String,
    pub name: String,
    pub commands: Vec<String>,
}

/// A saved record of a past run, already redacted by whoever built it.
#[derive(Debug, Clone, PartialEq, Eq)]
pub struct RunRecord {
    pub id: String,
    pub script_id: String,
    pub script_name: String,
    pub started_at: String,
    pub finished_at: String,
    pub mode: String,
    pub ok_count: u32,
    pub error_count: u32,
    pub total: u32,
    pub hosts: Vec<RunHostRecord>,
}

/// Final state of a host in a saved run.
#[derive(Debug, Clone, PartialEq, Eq)]
pub struct RunHostRecord {
    pub profile_id: String,
    pub name: String,
    /// `ok` | `error` | `pending` | `running`…
    pub status: String,
    pub exit_code: Option<i32>,
    pub error: String,
    pub duration_ms: u64,
    pub log: Vec<RunLogEntry>,
    /// Output already sanitised and redacted.
    pub output: String,
}

/// One line of a host's run log.
#[derive(Debug, Clone, PartialEq, Eq)]
pub struct RunLogEntry {
    pub kind: String,
    pub text: String,
}

} // verus!
