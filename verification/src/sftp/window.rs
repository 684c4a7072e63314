//! The window of a pipelined download: which chunk to ask for next, how far
//! reading may run ahead of writing, and the reordering of chunks that come
//! back out of order so that the file is written front to back.
use vstd::prelude::*;
use crate::sftp::types::{SFTP_CHUNK, SFTP_PIPELINE, SFTP_READAHEAD_FACTOR};

verus! {

/// Bytes between two progress reports.
pub const PROGRESS_STEP: u64 = 262144;

/// A chunk read back: its offset and its bytes.
pub type Chunk = (u64, Vec<u8>);

pub open spec fn chunk_view(c: Chunk) -> (u64, Seq<u8>) {
    (c.0, c.1@)
}

/// Index of the chunk read at `off`, if any.
pub open spec fn find_offset(p: Seq<(u64, Seq<u8>)>, off: u64) -> Option<int>
    decreases p.len(),
{
    if p.len() == 0 {
        None
    } else if p.last().0 == off {
        Some(p.len() - 1)
    } else {
        find_offset(p.drop_last(), off)
    }
}

proof fn lemma_find_offset(p: Seq<(u64, Seq<u8>)>, off: u64)
    ensures
        match find_offset(p, off) {
            Some(i) => 0 <= i < p.len() && p[i].0 == off,
            None => forall|k: int| 0 <= k < p.len() ==> p[k].0 != off,
        },
    decreases p.len(),
{
    if p.len() > 0 && p.last().0 != off {
        let t = p.drop_last();
        lemma_find_offset(t, off);
        assert forall|k: int| 0 <= k < t.len() implies #[trigger] p[k] == t[k] by {}
    }
}

/// Writes that the chunks read so far allow, from `w`: each chunk that
/// starts where the file ends is written, with whether a progress report
/// follows it; an empty chunk there is an unexpected end of file. Returns the
/// writes, the error, the chunks left, the new end and the last reported
/// position.
pub open spec fn drain(p: Seq<(u64, Seq<u8>)>, w: u64, last: u64) -> (Seq<(Seq<u8>, bool)>, bool, Seq<(u64, Seq<u8>)>, u64, u64)
    decreases p.len(),
{
    match find_offset(p, w) {
        None => (seq![], false, p, w, last),
        Some(i) => {
            if 0 <= i < p.len() {
                let d = p[i].1;
                if d.len() == 0 {
                    (seq![], true, p.remove(i), w, last)
                } else {
                    let w2 = (w + d.len()) as u64;
                    let emit = w2 - last >= PROGRESS_STEP;
                    let last2 = if emit {
                        w2
                    } else {
                        last
                    };
                    let (rest, err, p2, w3, l3) = drain(p.remove(i), w2, last2);
                    (seq![(d, emit)] + rest, err, p2, w3, l3)
                }
            } else {
                (seq![], false, p, w, last)
            }
        },
    }
}

fn find_chunk(p: &Vec<Chunk>, off: u64) -> (r: Option<usize>)
    ensures
        r matches Some(i) ==> find_offset(p@.map_values(|c: Chunk| chunk_view(c)), off) == Some(i as int) && i
            < p@.len(),
        r is None ==> find_offset(p@.map_values(|c: Chunk| chunk_view(c)), off) is None,
{
    let ghost v = p@.map_values(|c: Chunk| chunk_view(c));
    let mut n = p.len();
    assert(v.take(n as int) =~= v);
    while n > 0
        invariant
            n <= p@.len(),
            v == p@.map_values(|c: Chunk| chunk_view(c)),
            find_offset(v, off) == find_offset(v.take(n as int), off),
        decreases n,
    {
        if p[n - 1].0 == off {
            assert(v.take(n as int).last().0 == off);
            return Some(n - 1);
        }
        assert(v.take(n as int).drop_last() =~= v.take(n - 1));
        n -= 1;
    }
    assert(v.take(0) =~= Seq::<(u64, Seq<u8>)>::empty());
    None
}

/// Every chunk read lies within the file.
pub open spec fn within(p: Seq<(u64, Seq<u8>)>, total: u64) -> bool {
    forall|k: int| 0 <= k < p.len() ==> p[k].0 + p[k].1.len() <= total
}

/// The state of a pipelined download.
pub struct DownloadWindow {
    total: u64,
    parallelism: u64,
    idle: u64,
    next_read: u64,
    next_write: u64,
    last_emit: u64,
    pending: Vec<Chunk>,
}

pub struct WindowV {
    pub total: u64,
    pub parallelism: u64,
    pub idle: u64,
    pub next_read: u64,
    pub next_write: u64,
    pub last_emit: u64,
    pub pending: Seq<(u64, Seq<u8>)>,
}

impl View for DownloadWindow {
    type V = WindowV;

    closed spec fn view(&self) -> WindowV {
        WindowV {
            total: self.total,
            parallelism: self.parallelism,
            idle: self.idle,
            next_read: self.next_read,
            next_write: self.next_write,
            last_emit: self.last_emit,
            pending: self.pending@.map_values(|c: Chunk| chunk_view(c)),
        }
    }
}

/// How far reading may run ahead of writing, in bytes.
pub open spec fn max_ahead(parallelism: u64) -> nat {
    (SFTP_CHUNK * SFTP_READAHEAD_FACTOR * parallelism) as nat
}

pub open spec fn window_wf(v: WindowV) -> bool {
    &&& 1 <= v.parallelism <= SFTP_PIPELINE
    &&& v.idle <= v.parallelism
    &&& v.next_read <= v.total
    &&& v.next_write <= v.total
    &&& v.last_emit <= v.next_write
    &&& within(v.pending, v.total)
}

impl DownloadWindow {
    /// A download of `total` bytes over `parallelism` open handles.
    pub fn new(total: u64, parallelism: u64) -> (r: Self)
        requires
            1 <= parallelism <= SFTP_PIPELINE,
        ensures
            window_wf(r@),
            r@.total == total && r@.parallelism == parallelism && r@.idle == parallelism && r@.next_read == 0
                && r@.next_write == 0 && r@.last_emit == 0 && r@.pending.len() == 0,
    {
        DownloadWindow {
            total,
            parallelism,
            idle: parallelism,
            next_read: 0,
            next_write: 0,
            last_emit: 0,
            pending: Vec::new(),
        }
    }

    /// The next chunk to ask for, `(offset, length)`: only with a handle
    /// idle, bytes left to ask for, and reading less than `max_ahead` bytes
    /// ahead of writing. The chunk still to be written is always in flight or
    /// read, so holding back here cannot stall the download.
    pub fn next_request(&mut self) -> (r: Option<(u64, u64)>)
        requires
            window_wf(old(self)@),
        ensures
            window_wf(final(self)@),
            ({
                let o = old(self)@;
                if o.idle > 0 && o.next_read < o.total && o.next_read - o.next_write < max_ahead(o.parallelism) {
                    let len = if o.total - o.next_read < SFTP_CHUNK {
                        (o.total - o.next_read) as u64
                    } else {
                        SFTP_CHUNK
                    };
                    r == Some((o.next_read, len)) && final(self)@ == (WindowV {
                        idle: (o.idle - 1) as u64,
                        next_read: (o.next_read + len) as u64,
                        ..o
                    })
                } else {
                    r is None && final(self)@ == o
                }
            }),
    {
        let par = self.parallelism;
        assert(par <= 32);
        assert(SFTP_CHUNK * SFTP_READAHEAD_FACTOR * par <= 16777216) by (nonlinear_arith)
            requires
                par <= 32,
                SFTP_CHUNK == 262144,
                SFTP_READAHEAD_FACTOR == 2,
        ;
        let ahead: u64 = SFTP_CHUNK * SFTP_READAHEAD_FACTOR * par;
        if self.idle > 0 && self.next_read < self.total && (self.next_read < self.next_write
            || self.next_read - self.next_write < ahead) {
            let left = self.total - self.next_read;
            let len = if left < SFTP_CHUNK {
                left
            } else {
                SFTP_CHUNK
            };
            let off = self.next_read;
            self.next_read = self.next_read + len;
            self.idle = self.idle - 1;
            Some((off, len))
        } else {
            None
        }
    }

    /// A chunk came back: its handle is idle again, the chunk joins those
    /// read, and every chunk that now continues the file is handed out to be
    /// written, in order, with whether a progress report follows it. The
    /// flag is set when an empty chunk stands where the file ends (an
    /// unexpected end of file): the writes before it are still handed out.
    pub fn chunk_done(&mut self, offset: u64, data: Vec<u8>) -> (r: (Vec<(Vec<u8>, bool)>, bool))
        requires
            window_wf(old(self)@),
            old(self)@.idle < old(self)@.parallelism,
            offset + data@.len() <= old(self)@.total,
        ensures
            window_wf(final(self)@),
            ({
                let o = old(self)@;
                let p = match find_offset(o.pending, offset) {
                    Some(i) => o.pending.update(i, (offset, data@)),
                    None => o.pending.push((offset, data@)),
                };
                let (writes, err, rest, w, last) = drain(p, o.next_write, o.last_emit);
                &&& r.0@.map_values(|x: (Vec<u8>, bool)| (x.0@, x.1)) == writes
                &&& r.1 == err
                &&& final(self)@ == (WindowV { idle: (o.idle + 1) as u64, next_write: w, last_emit: last, pending: rest, ..o })
            }),
    {
        proof {
            lemma_find_offset(self@.pending, offset);
        }
        self.idle = self.idle + 1;
        let ghost o = old(self)@;
        let ghost dv = data@;
        // Keep the chunk (a chunk read again at the same offset replaces it).
        let found = find_chunk(&self.pending, offset);
        assert(self@.pending =~= o.pending);
        match found {
            Some(i) => {
                self.pending.set(i, (offset, data));
                assert(self@.pending =~= o.pending.update(i as int, (offset, dv)));
            },
            None => {
                self.pending.push((offset, data));
                assert(self@.pending =~= o.pending.push((offset, dv)));
            },
        }
        let ghost p0 = self@.pending;
        let ghost full = drain(p0, o.next_write, o.last_emit);
        assert(within(p0, o.total)) by {
            assert forall|q: int| 0 <= q < p0.len() implies p0[q].0 + p0[q].1.len() <= o.total by {
                if q < o.pending.len() && !(found matches Some(i) && q == i) {
                    assert(p0[q] == o.pending[q]);
                }
            }
        }
        let mut writes: Vec<(Vec<u8>, bool)> = Vec::new();
        loop
            invariant
                window_wf(self@),
                self@.total == o.total,
                self@.parallelism == o.parallelism,
                self@.idle == (o.idle + 1) as u64,
                self@.next_read == o.next_read,
                full == drain(p0, o.next_write, o.last_emit),
                p0 == (match find_offset(o.pending, offset) {
                    Some(i) => o.pending.update(i, (offset, dv)),
                    None => o.pending.push((offset, dv)),
                }),
                dv == data@,
                o == old(self)@,
                ({
                    let (rest_w, err, rest, w, last) = drain(self@.pending, self@.next_write, self@.last_emit);
                    &&& full.0 == writes@.map_values(|x: (Vec<u8>, bool)| (x.0@, x.1)) + rest_w
                    &&& full.1 == err
                    &&& full.2 == rest
                    &&& full.3 == w
                    &&& full.4 == last
                }),
            decreases self.pending@.len(),
        {
            let ghost cur = self@.pending;
            proof {
                lemma_find_offset(cur, self.next_write);
            }
            let idx = find_chunk(&self.pending, self.next_write);
            match idx {
                None => {
                    proof {
                        assert(writes@.map_values(|x: (Vec<u8>, bool)| (x.0@, x.1)) + Seq::<(Seq<u8>, bool)>::empty()
                            =~= writes@.map_values(|x: (Vec<u8>, bool)| (x.0@, x.1)));
                        assert(drain(self@.pending, self@.next_write, self@.last_emit) == (
                        Seq::<(Seq<u8>, bool)>::empty(),
                        false,
                        self@.pending,
                        self@.next_write,
                        self@.last_emit,
                        ));
                        assert(full.0 == writes@.map_values(|x: (Vec<u8>, bool)| (x.0@, x.1)));
                        assert(full.2 == self@.pending);
                    }
                    return (writes, false);
                },
                Some(i) => {
                    let (_, d) = self.pending.remove(i);
                    assert(self@.pending =~= cur.remove(i as int));
                    assert(d@ == cur[i as int].1);
                    if d.len() == 0 {
                        proof {
                            assert(writes@.map_values(|x: (Vec<u8>, bool)| (x.0@, x.1)) + Seq::<(Seq<u8>, bool)>::empty()
                                =~= writes@.map_values(|x: (Vec<u8>, bool)| (x.0@, x.1)));
                        }
                        return (writes, true);
                    }
                    let ghost before = writes@.map_values(|x: (Vec<u8>, bool)| (x.0@, x.1));
                    assert(cur[i as int].0 + cur[i as int].1.len() <= o.total);
                    let w2 = self.next_write + d.len() as u64;
                    let emit = w2 - self.last_emit >= PROGRESS_STEP;
                    if emit {
                        self.last_emit = w2;
                    }
                    self.next_write = w2;
                    let ghost dv2 = d@;
                    writes.push((d, emit));
                    proof {
                        assert(writes@.map_values(|x: (Vec<u8>, bool)| (x.0@, x.1)) =~= before.push((dv2, emit)));
                        let (rw, e2, r2, w3, l3) = drain(self@.pending, self@.next_write, self@.last_emit);
                        assert(before.push((dv2, emit)) + rw =~= before + (seq![(dv2, emit)] + rw));
                        assert(within(self@.pending, o.total)) by {
                            assert forall|q: int| 0 <= q < self@.pending.len() implies self@.pending[q].0
                                + self@.pending[q].1.len() <= o.total by {
                                let oq = if q < i {
                                    q
                                } else {
                                    q + 1
                                };
                                assert(self@.pending[q] == cur[oq]);
                            }
                        }
                    }
                },
            }
        }
    }

    /// Bytes written so far (the end of the file being written).
    pub fn written(&self) -> (r: u64)
        ensures
            r == self@.next_write,
    {
        self.next_write
    }

    /// Whether chunks are still out (a handle is not idle).
    pub fn busy(&self) -> (r: bool)
        ensures
            r == (self@.idle < self@.parallelism),
    {
        self.idle < self.parallelism
    }
}

// ─── Laws ────────────────────────────────────────────────────────────────────

/// Sum of the lengths of a list of writes.
pub open spec fn total_len(ws: Seq<(Seq<u8>, bool)>) -> nat
    decreases ws.len(),
{
    if ws.len() == 0 {
        0
    } else {
        ws[0].0.len() + total_len(ws.drop_first())
    }
}

/// The writes a drain hands out are contiguous: the new end of the file is
/// the old one plus their lengths, and every chunk read is either written,
/// left waiting, or (once) the empty chunk that ends the download.
pub proof fn lemma_drain_is_contiguous(p: Seq<(u64, Seq<u8>)>, w: u64, last: u64, total: u64)
    requires
        within(p, total),
        w <= total,
    ensures
        ({
            let (ws, err, rest, w2, l2) = drain(p, w, last);
            &&& w2 == w + total_len(ws)
            &&& rest.len() + ws.len() + (if err {
                1int
            } else {
                0
            }) == p.len()
        }),
    decreases p.len(),
{
    lemma_find_offset(p, w);
    if let Some(i) = find_offset(p, w) {
        let d = p[i].1;
        if d.len() > 0 {
            let w2 = (w + d.len()) as u64;
            let emit = w2 - last >= PROGRESS_STEP;
            let last2 = if emit {
                w2
            } else {
                last
            };
            let r = p.remove(i);
            assert(within(r, total)) by {
                assert forall|q: int| 0 <= q < r.len() implies r[q].0 + r[q].1.len() <= total by {
                    let oq = if q < i {
                        q
                    } else {
                        q + 1
                    };
                    assert(r[q] == p[oq]);
                }
            }
            lemma_drain_is_contiguous(r, w2, last2, total);
            let (rest_ws, e, rr, w3, l3) = drain(r, w2, last2);
            let ws = seq![(d, emit)] + rest_ws;
            assert(ws[0].0 == d);
            assert(ws.drop_first() =~= rest_ws);
        }
    }
}


/// Progress of a serial copy (the FTP path): bytes copied and where the last
/// report was, so that a report goes out every `PROGRESS_STEP` bytes.
#[derive(Debug, Clone, Copy, PartialEq, Eq, Structural)]
pub struct CopyProgress {
    transferred: u64,
    last_emit: u64,
}

impl CopyProgress {
    pub closed spec fn transferred_spec(&self) -> u64 {
        self.transferred
    }

    pub closed spec fn last_emit_spec(&self) -> u64 {
        self.last_emit
    }

    /// The last report never lies ahead of the bytes copied.
    pub open spec fn wf(&self) -> bool {
        self.last_emit_spec() <= self.transferred_spec()
    }

    /// Nothing copied, nothing reported.
    pub fn new() -> (r: Self)
        ensures
            r.wf(),
            r.transferred_spec() == 0,
            r.last_emit_spec() == 0,
    {
        CopyProgress { transferred: 0, last_emit: 0 }
    }

    /// Bytes copied so far.
    pub fn transferred(&self) -> (r: u64)
        ensures
            r == self.transferred_spec(),
    {
        self.transferred
    }

    /// Counts `n` more bytes; `true` when a progress report is due (and it
    /// is then taken as made).
    pub fn record(&mut self, n: u64) -> (emit: bool)
        requires
            old(self).wf(),
            old(self).transferred_spec() + n <= u64::MAX,
        ensures
            final(self).wf(),
            final(self).transferred_spec() == old(self).transferred_spec() + n,
            emit == (final(self).transferred_spec() - old(self).last_emit_spec() >= PROGRESS_STEP),
            final(self).last_emit_spec() == (if emit {
                final(self).transferred_spec()
            } else {
                old(self).last_emit_spec()
            }),
            final(self).transferred_spec() - final(self).last_emit_spec() < PROGRESS_STEP,
    {
        self.transferred = self.transferred + n;
        if self.transferred - self.last_emit >= PROGRESS_STEP {
            self.last_emit = self.transferred;
            true
        } else {
            false
        }
    }
}


/// The state of a pipelined upload: the handles idle, the next offset to
/// read from the local file, and the bytes written so far.
pub struct UploadWindow {
    total: u64,
    parallelism: u64,
    idle: u64,
    next_offset: u64,
    transferred: u64,
    last_emit: u64,
}

pub struct UploadV {
    pub total: u64,
    pub parallelism: u64,
    pub idle: u64,
    pub next_offset: u64,
    pub transferred: u64,
    pub last_emit: u64,
}

impl View for UploadWindow {
    type V = UploadV;

    closed spec fn view(&self) -> UploadV {
        UploadV {
            total: self.total,
            parallelism: self.parallelism,
            idle: self.idle,
            next_offset: self.next_offset,
            transferred: self.transferred,
            last_emit: self.last_emit,
        }
    }
}

/// Handles are never lost nor made up; no more is written than was read.
pub open spec fn upload_wf(v: UploadV) -> bool {
    &&& 1 <= v.parallelism <= SFTP_PIPELINE
    &&& v.idle <= v.parallelism
    &&& v.next_offset <= v.total
    &&& v.transferred <= v.next_offset
    &&& v.last_emit <= v.transferred
}

impl UploadWindow {
    /// An upload of `total` bytes over `parallelism` open handles.
    pub fn new(total: u64, parallelism: u64) -> (r: Self)
        requires
            1 <= parallelism <= SFTP_PIPELINE,
        ensures
            upload_wf(r@),
            r@ == (UploadV { total, parallelism, idle: parallelism, next_offset: 0, transferred: 0, last_emit: 0 }),
    {
        UploadWindow { total, parallelism, idle: parallelism, next_offset: 0, transferred: 0, last_emit: 0 }
    }

    /// The next chunk to read and send, `(offset, length)`: with a handle
    /// idle and bytes left, the next `SFTP_CHUNK` (or what is left).
    pub fn next_chunk(&mut self) -> (r: Option<(u64, u64)>)
        requires
            upload_wf(old(self)@),
        ensures
            upload_wf(final(self)@),
            ({
                let o = old(self)@;
                if o.idle > 0 && o.next_offset < o.total {
                    let len = if o.total - o.next_offset < SFTP_CHUNK {
                        (o.total - o.next_offset) as u64
                    } else {
                        SFTP_CHUNK
                    };
                    r == Some((o.next_offset, len)) && final(self)@ == (UploadV {
                        idle: (o.idle - 1) as u64,
                        next_offset: (o.next_offset + len) as u64,
                        ..o
                    })
                } else {
                    r is None && final(self)@ == o
                }
            }),
    {
        if self.idle > 0 && self.next_offset < self.total {
            let left = self.total - self.next_offset;
            let len = if left < SFTP_CHUNK {
                left
            } else {
                SFTP_CHUNK
            };
            let off = self.next_offset;
            self.next_offset = self.next_offset + len;
            self.idle = self.idle - 1;
            Some((off, len))
        } else {
            None
        }
    }

    /// The local file gave nothing for the chunk just taken (it ended early):
    /// its handle is idle again and no more chunks are handed out.
    pub fn file_ended(&mut self)
        requires
            upload_wf(old(self)@),
            old(self)@.idle < old(self)@.parallelism,
        ensures
            upload_wf(final(self)@),
            final(self)@ == (UploadV { idle: (old(self)@.idle + 1) as u64, next_offset: old(self)@.total, ..old(self)@ }),
    {
        self.idle = self.idle + 1;
        self.next_offset = self.total;
    }

    /// A chunk of `n` bytes was written: its handle is idle again; `true`
    /// when a progress report is due (every `PROGRESS_STEP` bytes).
    pub fn written(&mut self, n: u64) -> (emit: bool)
        requires
            upload_wf(old(self)@),
            old(self)@.idle < old(self)@.parallelism,
            old(self)@.transferred + n <= old(self)@.next_offset,
        ensures
            upload_wf(final(self)@),
            ({
                let o = old(self)@;
                let t = (o.transferred + n) as u64;
                &&& emit == (t - o.last_emit >= PROGRESS_STEP)
                &&& final(self)@ == (UploadV {
                    idle: (o.idle + 1) as u64,
                    transferred: t,
                    last_emit: if emit {
                        t
                    } else {
                        o.last_emit
                    },
                    ..o
                })
            }),
    {
        self.idle = self.idle + 1;
        self.transferred = self.transferred + n;
        if self.transferred - self.last_emit >= PROGRESS_STEP {
            self.last_emit = self.transferred;
            true
        } else {
            false
        }
    }

    /// Writes still in flight.
    pub fn busy(&self) -> (r: bool)
        requires
            upload_wf(self@),
        ensures
            r == (self@.idle < self@.parallelism),
    {
        self.idle < self.parallelism
    }

    /// Bytes written so far.
    pub fn transferred(&self) -> (r: u64)
        ensures
            r == self@.transferred,
    {
        self.transferred
    }
}

/// The chunks an upload hands out tile the file: each starts where the
/// previous one ended, none is longer than `SFTP_CHUNK`, and none goes past
/// the end.
pub proof fn lemma_upload_chunks_tile(before: UploadV, after: UploadV, off: u64, len: u64)
    requires
        upload_wf(before),
        before.idle > 0 && before.next_offset < before.total,
        off == before.next_offset,
        len == (if before.total - before.next_offset < SFTP_CHUNK {
            (before.total - before.next_offset) as u64
        } else {
            SFTP_CHUNK
        }),
        after == (UploadV { idle: (before.idle - 1) as u64, next_offset: (before.next_offset + len) as u64, ..before }),
    ensures
        after.next_offset == off + len,
        0 < len <= SFTP_CHUNK,
        off + len <= before.total,
        upload_wf(after),
{
}

} // verus!
