//! Data of the file browser and the sizing of pipelined transfers.
use vstd::prelude::*;
use crate::text::str_eq;

verus! {

/// Size of each SFTP read/write request (256 KiB, the client's maximum).
pub const SFTP_CHUNK: u64 = 262144;

/// SFTP requests kept in flight at once during a transfer.
pub const SFTP_PIPELINE: usize = 32;

/// Seconds a single SFTP request may take (key renegotiation can stall one).
pub const SFTP_REQUEST_TIMEOUT_SECS: u64 = 120;

/// Bound of the download read-ahead, in windows of `parallelism × chunk`.
pub const SFTP_READAHEAD_FACTOR: u64 = 2;

/// Suffix of the temporary file a download is written to before it takes its
/// final name.
pub const PART_SUFFIX: &'static str = ".rustty-part";

/// An entry of a remote listing. `modified` is in seconds since the epoch.
#[derive(Debug, Clone, PartialEq, Eq)]
pub struct FileEntry {
    pub name: String,
    pub path: String,
    pub is_dir: bool,
    pub is_symlink: bool,
    pub size: u64,
    pub modified: Option<u64>,
    pub permissions: Option<u32>,
}

/// What a folder transfer does with a destination that already exists.
#[derive(Debug, Clone, Copy, PartialEq, Eq, Structural)]
pub enum TransferConflictPolicy {
    Overwrite,
    Skip,
    Rename,
}

impl TransferConflictPolicy {
    /// `"skip"` and `"rename"` name their policies; anything else overwrites.
    pub fn from_str(policy: &str) -> (r: Self)
        ensures
            r == (if policy@ == "skip"@ {
                TransferConflictPolicy::Skip
            } else if policy@ == "rename"@ {
                TransferConflictPolicy::Rename
            } else {
                TransferConflictPolicy::Overwrite
            }),
    {
        if str_eq(policy, "skip") {
            TransferConflictPolicy::Skip
        } else if str_eq(policy, "rename") {
            TransferConflictPolicy::Rename
        } else {
            TransferConflictPolicy::Overwrite
        }
    }
}

/// Number of `SFTP_CHUNK` pieces of a transfer of `total` bytes (rounded up).
pub open spec fn chunk_count(total: nat) -> nat {
    if total == 0 {
        0
    } else {
        ((total - 1) as nat / SFTP_CHUNK as nat + 1) as nat
    }
}

/// The per-session cap, brought into `1..=SFTP_PIPELINE`.
pub open spec fn clamp_cap(cap: nat) -> nat {
    if cap < 1 {
        1
    } else if cap > SFTP_PIPELINE {
        SFTP_PIPELINE as nat
    } else {
        cap
    }
}

/// Handles opened in parallel for a transfer: one for a single chunk, else
/// one per chunk up to the clamped cap.
pub open spec fn parallelism(total: nat, cap: nat) -> nat {
    if total <= SFTP_CHUNK {
        1
    } else {
        let m = if chunk_count(total) < clamp_cap(cap) {
            chunk_count(total)
        } else {
            clamp_cap(cap)
        };
        if m < 1 {
            1
        } else {
            m
        }
    }
}

/// How many SFTP handles a transfer of `total` bytes opens in parallel.
pub fn effective_parallelism(total: u64, cap: usize) -> (r: usize)
    ensures
        r == parallelism(total as nat, cap as nat),
        1 <= r <= SFTP_PIPELINE,
{
    if total <= SFTP_CHUNK {
        return 1;
    }
    let c: usize = if cap < 1 {
        1
    } else if cap > SFTP_PIPELINE {
        SFTP_PIPELINE
    } else {
        cap
    };
    let chunks: u64 = (total - 1) / SFTP_CHUNK + 1;
    let m: u64 = if chunks < c as u64 {
        chunks
    } else {
        c as u64
    };
    let r: usize = if m < 1 {
        1
    } else {
        m as usize
    };
    r
}


/// What a folder transfer does with one file whose destination may exist.
#[derive(Debug, Clone, Copy, PartialEq, Eq, Structural)]
pub enum ConflictStep {
    /// Write to the destination (it is new, or it is overwritten).
    Write,
    /// Leave the destination as it is and go on.
    Skip,
    /// Pick a free name next to the destination first.
    RenameFirst,
}

/// The step for a file, given the policy and what is at the destination
/// (`None`: nothing; `Some(is_dir)`: an entry). A folder in the way is never
/// overwritten by a file: the file gets another name.
pub fn conflict_step(policy: TransferConflictPolicy, existing: Option<bool>) -> (r: ConflictStep)
    ensures
        r == match existing {
            None => ConflictStep::Write,
            Some(is_dir) => match policy {
                TransferConflictPolicy::Skip => ConflictStep::Skip,
                TransferConflictPolicy::Rename => ConflictStep::RenameFirst,
                TransferConflictPolicy::Overwrite => if is_dir {
                    ConflictStep::RenameFirst
                } else {
                    ConflictStep::Write
                },
            },
        },
{
    match existing {
        None => ConflictStep::Write,
        Some(is_dir) => match policy {
            TransferConflictPolicy::Skip => ConflictStep::Skip,
            TransferConflictPolicy::Rename => ConflictStep::RenameFirst,
            TransferConflictPolicy::Overwrite => {
                if is_dir {
                    ConflictStep::RenameFirst
                } else {
                    ConflictStep::Write
                }
            },
        },
    }
}


/// What a directory walk finds (links are not followed).
#[derive(Debug, Clone, Copy, PartialEq, Eq, Structural)]
pub enum WalkEntry {
    /// A symbolic link: skipped by transfers, but counted.
    Symlink,
    /// A folder: walked into.
    Dir,
    /// A regular file, with its size when it could be read.
    File(Option<u64>),
    /// Anything else (sockets, devices): ignored.
    Other,
}

/// Count of a tree before transferring it: regular files, their bytes and
/// the symbolic links that will be skipped (so that the user is told).
#[derive(Debug, Clone, Copy, PartialEq, Eq, Structural)]
pub struct TreeCount {
    pub files: u32,
    pub bytes: u64,
    pub symlinks: u32,
}

impl TreeCount {
    /// Nothing counted.
    pub fn new() -> (r: Self)
        ensures
            r == (TreeCount { files: 0, bytes: 0, symlinks: 0 }),
    {
        TreeCount { files: 0, bytes: 0, symlinks: 0 }
    }

    /// Counts one entry of the walk; `true` when it is a folder to walk into.
    pub fn add(&mut self, entry: WalkEntry) -> (descend: bool)
        requires
            old(self).files < u32::MAX,
            old(self).symlinks < u32::MAX,
            entry matches WalkEntry::File(Some(n)) ==> old(self).bytes + n <= u64::MAX,
        ensures
            descend == (entry == WalkEntry::Dir),
            *final(self) == match entry {
                WalkEntry::Symlink => TreeCount { symlinks: (old(self).symlinks + 1) as u32, ..*old(self) },
                WalkEntry::File(size) => TreeCount {
                    files: (old(self).files + 1) as u32,
                    bytes: match size {
                        Some(n) => (old(self).bytes + n) as u64,
                        None => old(self).bytes,
                    },
                    ..*old(self)
                },
                _ => *old(self),
            },
    {
        match entry {
            WalkEntry::Symlink => {
                self.symlinks = self.symlinks + 1;
                false
            },
            WalkEntry::Dir => true,
            WalkEntry::File(size) => {
                self.files = self.files + 1;
                if let Some(n) = size {
                    self.bytes = self.bytes + n;
                }
                false
            },
            WalkEntry::Other => false,
        }
    }
}

} // verus!
