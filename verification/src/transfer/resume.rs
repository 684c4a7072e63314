//! Resumption of interrupted downloads.
//!
//! A download is written to `<name>.rustty-part` and a card ([`PartMeta`])
//! beside it records the remote path, size and modification time of the
//! source. It is only resumed if the server still says exactly the same;
//! on any doubt it starts over. The decision is [`plan`], which reads no disk.
use vstd::prelude::*;

verus! {

/// Suffix of the card that goes with a download's temporary file.
pub const META_SUFFIX: &'static str = ".meta";

/// Card of a temporary file: which remote file it comes from and how the
/// source was when the download began.
#[derive(Debug, Clone, PartialEq, Eq)]
pub struct PartMeta {
    /// Full remote path of the source file.
    pub remote: String,
    /// Total size the server announced.
    pub size: u64,
    /// Remote modification time in seconds since the epoch, if the server
    /// gives one.
    pub mtime: Option<u64>,
}

/// What to do with the temporary file found.
#[derive(Debug, Clone, Copy, PartialEq, Eq, Structural)]
pub enum ResumePlan {
    /// Start over: truncate the temporary file and download it whole.
    Fresh,
    /// Continue from this offset.
    Continue(u64),
    /// The temporary file already holds the whole file: only publish it.
    Complete,
}

pub open spec fn plan_spec(meta: Option<(Seq<char>, u64, Option<u64>)>, part_len: u64, remote: Seq<char>, size: u64, mtime: Option<u64>) -> ResumePlan {
    if part_len == 0 {
        ResumePlan::Fresh
    } else {
        match meta {
            None => ResumePlan::Fresh,
            Some((r, s, m)) => if r != remote || s != size || m != mtime {
                ResumePlan::Fresh
            } else if part_len > size {
                ResumePlan::Fresh
            } else if part_len == size {
                ResumePlan::Complete
            } else {
                ResumePlan::Continue(part_len)
            },
        }
    }
}

pub open spec fn meta_view(meta: Option<&PartMeta>) -> Option<(Seq<char>, u64, Option<u64>)> {
    match meta {
        Some(m) => Some((m.remote@, m.size, m.mtime)),
        None => None,
    }
}

/// Decides what to do with a temporary file of `part_len` bytes, given its
/// card and what the server says now.
pub fn plan(meta: Option<&PartMeta>, part_len: u64, remote: &str, size: u64, mtime: Option<u64>) -> (r: ResumePlan)
    ensures
        r == plan_spec(meta_view(meta), part_len, remote@, size, mtime),
{
    if part_len == 0 {
        return ResumePlan::Fresh;
    }
    let meta = match meta {
        Some(m) => m,
        None => return ResumePlan::Fresh,
    };
    let same_time = match (meta.mtime, mtime) {
        (Some(a), Some(b)) => a == b,
        (None, None) => true,
        _ => false,
    };
    if !crate::text::str_eq(meta.remote.as_str(), remote) || meta.size != size || !same_time {
        return ResumePlan::Fresh;
    }
    if part_len > size {
        return ResumePlan::Fresh;
    }
    if part_len == size {
        return ResumePlan::Complete;
    }
    ResumePlan::Continue(part_len)
}

/// A resumed download never reads past its source: whatever the card says,
/// `Continue` only comes with an offset strictly inside the file the server
/// announces now, and `Complete` only when the piece has exactly its size,
/// for the same path, size and date as recorded.
pub proof fn lemma_plan_is_safe(meta: Option<(Seq<char>, u64, Option<u64>)>, part_len: u64, remote: Seq<char>, size: u64, mtime: Option<u64>)
    ensures
        plan_spec(meta, part_len, remote, size, mtime) matches ResumePlan::Continue(off) ==> 0 < off < size
            && off == part_len && meta == Some((remote, size, mtime)),
        plan_spec(meta, part_len, remote, size, mtime) is Complete ==> part_len == size && part_len > 0
            && meta == Some((remote, size, mtime)),
{
}


/// Path of the card that goes with a temporary file: beside it, its name
/// with `.meta` appended.
pub fn meta_path(part: &str) -> (r: String)
    ensures
        r@ == crate::sftp::paths::sibling_spec(part@, META_SUFFIX@),
{
    crate::sftp::paths::sibling_with_suffix(part, META_SUFFIX)
}

} // verus!
