//! Pure decisions about the remote copies: which HTTP answers are worth a
//! retry, which of several duplicate state blobs is the primary, and the
//! label of a snapshot.
use vstd::prelude::*;
use vstd::seq_lib::group_to_multiset_ensures;
use crate::sync::config::SnapshotEntry;
use crate::text::{chars_of, lemma_lt_irrefl, lemma_lt_total, lemma_lt_trans, sorted_strs, str_eq, str_less, str_lt, string_of};

verus! {

/// Waits between retries of a transient failure, in milliseconds.
pub const HTTP_RETRY_DELAYS_MS: [u64; 2] = [500, 2000];

/// Throttling (429) and server errors (5xx) are transient: worth a retry.
pub fn is_transient_status(status: u16) -> (r: bool)
    ensures
        r == (status == 429 || (500 <= status && status <= 599)),
{
    status == 429 || (500 <= status && status <= 599)
}

/// What one attempt of an HTTP request came to.
#[derive(Debug, Clone, Copy, PartialEq, Eq, Structural)]
pub enum HttpOutcome {
    /// An answer with this status.
    Status(u16),
    /// No answer: the connection failed or timed out.
    Connectivity,
    /// Any other failure of the request.
    OtherError,
}

/// What to do after an attempt.
#[derive(Debug, Clone, Copy, PartialEq, Eq, Structural)]
pub enum RetryAction {
    /// Hand the answer to the caller, whatever its status.
    Return,
    /// Give up with the failure.
    Fail,
    /// Wait this many milliseconds and try again.
    Wait(u64),
}

pub open spec fn retry_spec(attempt: nat, outcome: HttpOutcome) -> RetryAction {
    match outcome {
        HttpOutcome::Status(s) => if attempt < 2 && (s == 429 || (500 <= s && s <= 599)) {
            RetryAction::Wait(if attempt == 0 { 500u64 } else { 2000u64 })
        } else {
            RetryAction::Return
        },
        HttpOutcome::Connectivity => if attempt < 2 {
            RetryAction::Wait(if attempt == 0 { 500u64 } else { 2000u64 })
        } else {
            RetryAction::Fail
        },
        HttpOutcome::OtherError => RetryAction::Fail,
    }
}

/// After attempt number `attempt` (from 0): a transient status or a lost
/// connection is retried after the delay of that attempt while delays are
/// left; the last attempt is handed back as it came.
pub fn retry_after(attempt: usize, outcome: HttpOutcome) -> (r: RetryAction)
    ensures
        r == retry_spec(attempt as nat, outcome),
        r matches RetryAction::Wait(_) ==> attempt < HTTP_RETRY_DELAYS_MS.len(),
{
    let delays = HTTP_RETRY_DELAYS_MS;
    match outcome {
        HttpOutcome::Status(s) => {
            if attempt < delays.len() && is_transient_status(s) {
                RetryAction::Wait(delays[attempt])
            } else {
                RetryAction::Return
            }
        },
        HttpOutcome::Connectivity => {
            if attempt < delays.len() {
                RetryAction::Wait(delays[attempt])
            } else {
                RetryAction::Fail
            }
        },
        HttpOutcome::OtherError => RetryAction::Fail,
    }
}

pub open spec fn views(v: Seq<String>) -> Seq<Seq<char>> {
    v.map_values(|s: String| s@)
}

/// The strings in ascending order (insertion sort).
fn sort_strs(ids: Vec<String>) -> (out: Vec<String>)
    ensures
        views(out@).to_multiset() == views(ids@).to_multiset(),
        sorted_strs(views(out@)),
        out@.len() == ids@.len(),
{
    broadcast use group_to_multiset_ensures;

    let ghost src = views(ids@);
    let mut out: Vec<String> = Vec::new();
    let ghost mut k: int = 0;
    for x in it: ids.into_iter()
        invariant
            views(it.seq()) == src,
            k == it.index(),
            views(out@).to_multiset() == src.take(k).to_multiset(),
            sorted_strs(views(out@)),
            out@.len() == k,
    {
        let ghost o = views(out@);
        let mut p: usize = 0;
        while p < out.len() && !str_less(x.as_str(), out[p].as_str())
            invariant
                p <= out@.len(),
                o == views(out@),
                forall|q: int| 0 <= q < p ==> !str_lt(x@, #[trigger] o[q]),
            decreases out.len() - p,
        {
            assert(o[p as int] == out@[p as int]@);
            p += 1;
        }
        proof {
            if p < out@.len() {
                assert(o[p as int] == out@[p as int]@);
                assert(str_lt(x@, o[p as int]));
                assert forall|q: int| p <= q < o.len() implies str_lt(x@, #[trigger] o[q]) by {
                    if q > p {
                        assert(!str_lt(o[q], o[p as int]));
                        lemma_lt_total(o[q], o[p as int]);
                        if o[q] != o[p as int] {
                            lemma_lt_trans(x@, o[p as int], o[q]);
                        }
                    }
                }
            }
        }
        let ghost xv = x@;
        out.insert(p, x);
        proof {
            let n = views(out@);
            assert(n =~= o.insert(p as int, xv));
            assert(src[k] == xv);
            assert(src.take(k + 1) =~= src.take(k).push(xv));
            vstd::seq_lib::to_multiset_insert(o, p as int, xv);
            vstd::seq_lib::to_multiset_build(src.take(k), xv);
            assert(sorted_strs(n)) by {
                assert forall|a: int, b: int| 0 <= a < b < n.len() implies !str_lt(#[trigger] n[b], #[trigger] n[a]) by {
                    if a < p && b < p {
                        assert(n[a] == o[a] && n[b] == o[b]);
                    } else if a < p && b == p {
                        assert(n[a] == o[a] && n[b] == xv);
                        assert(!str_lt(xv, o[a]));
                    } else if a < p && b > p {
                        assert(n[a] == o[a] && n[b] == o[b - 1]);
                    } else if a == p {
                        assert(n[a] == xv && n[b] == o[b - 1]);
                        assert(str_lt(xv, o[b - 1]));
                        if str_lt(o[b - 1], xv) {
                            lemma_lt_trans(xv, o[b - 1], xv);
                            lemma_lt_irrefl(xv);
                        }
                    } else {
                        assert(n[a] == o[a - 1] && n[b] == o[b - 1]);
                    }
                }
            }
            k = k + 1;
        }
    }
    proof {
        assert(src.take(k) =~= src);
    }
    out
}

/// The primary state blob among duplicates and the others: the ids are
/// sorted and the least is the primary, so that every device picks the same
/// one without coordination.
pub fn primary_and_duplicates(ids: Vec<String>) -> (r: (Option<String>, Vec<String>))
    ensures
        ({
            let all = match r.0 {
                Some(p) => seq![p@] + views(r.1@),
                None => views(r.1@),
            };
            &&& all.to_multiset() == views(ids@).to_multiset()
            &&& sorted_strs(all)
            &&& (r.0 is None <==> ids@.len() == 0)
        }),
{
    let mut out = sort_strs(ids);
    if out.len() == 0 {
        return (None, out);
    }
    let ghost before = views(out@);
    let first = out.remove(0);
    proof {
        assert(before =~= seq![first@] + views(out@));
        assert forall|a: int, b: int| 0 <= a < b < views(out@).len() implies !str_lt(#[trigger] views(out@)[b], #[trigger] views(out@)[a]) by {
            assert(views(out@)[a] == before[a + 1]);
            assert(views(out@)[b] == before[b + 1]);
        }
    }
    (Some(first), out)
}

/// Snapshots to delete so that `keep` are left: the names are sorted (the
/// stamp in them makes that oldest first) and the first `len - keep` go.
pub fn history_to_prune(names: Vec<String>, keep: usize) -> (r: Vec<String>)
    ensures
        exists|s: Seq<Seq<char>>|
            #![trigger sorted_strs(s)]
            sorted_strs(s) && s.to_multiset() == views(names@).to_multiset() && views(r@) == s.take(
                if names@.len() > keep { names@.len() - keep } else { 0 },
            ),
{
    let n = names.len();
    let mut sorted = sort_strs(names);
    let d: usize = if n > keep { n - keep } else { 0 };
    let ghost all = views(sorted@);
    sorted.truncate(d);
    assert(views(sorted@) =~= all.take(d as int));
    sorted
}

// ─── Snapshot labels ─────────────────────────────────────────────────────────

/// Bytes of a character in UTF-8.
pub open spec fn utf8_len(c: char) -> nat {
    if (c as u32) < 0x80 {
        1
    } else if (c as u32) < 0x800 {
        2
    } else if (c as u32) < 0x10000 {
        3
    } else {
        4
    }
}

/// Bytes of a text in UTF-8.
pub open spec fn byte_len(s: Seq<char>) -> nat
    decreases s.len(),
{
    if s.len() == 0 {
        0
    } else {
        byte_len(s.drop_last()) + utf8_len(s.last())
    }
}

/// The character that starts at byte `b`, if one does.
pub open spec fn char_at_byte(s: Seq<char>, b: nat) -> Option<int> {
    if exists|i: int| 0 <= i <= s.len() && byte_len(s.take(i)) == b {
        Some(choose|i: int| 0 <= i <= s.len() && byte_len(s.take(i)) == b)
    } else {
        None
    }
}

/// A snapshot file name without `rustty-sync-` and `.bin` (when it has both).
pub open spec fn snapshot_stem(name: Seq<char>) -> Seq<char> {
    match crate::text::strip_prefix(name, "rustty-sync-"@) {
        Some(a) => match crate::text::strip_suffix(a, ".bin"@) {
            Some(b) => b,
            None => name,
        },
        None => name,
    }
}

/// The stem is a stamp `YYYYMMDDTHHMMSSZ`: 16 bytes with a `T` at byte 8.
pub open spec fn is_stamp(s: Seq<char>) -> bool {
    byte_len(s) == 16 && (char_at_byte(s, 8) matches Some(i) && 0 <= i < s.len() && s[i] == 'T')
}

/// The byte offsets where a stamp is cut all start characters.
pub open spec fn stamp_cuts_ok(s: Seq<char>) -> bool {
    &&& char_at_byte(s, 4) is Some
    &&& char_at_byte(s, 6) is Some
    &&& char_at_byte(s, 11) is Some
    &&& char_at_byte(s, 13) is Some
    &&& char_at_byte(s, 15) is Some
}

/// `s[a..b]` by byte offsets.
pub open spec fn bytes_slice(s: Seq<char>, a: nat, b: nat) -> Seq<char> {
    s.subrange(char_at_byte(s, a).unwrap(), char_at_byte(s, b).unwrap())
}

/// The label of a snapshot: `YYYY-MM-DD HH:MM:SS UTC` for a stamped name,
/// else the name itself (without prefix and extension).
pub open spec fn snapshot_label(name: Seq<char>) -> Seq<char> {
    let s = snapshot_stem(name);
    if is_stamp(s) {
        bytes_slice(s, 0, 4) + seq!['-'] + bytes_slice(s, 4, 6) + seq!['-'] + bytes_slice(s, 6, 8) + seq![' ']
            + bytes_slice(s, 9, 11) + seq![':'] + bytes_slice(s, 11, 13) + seq![':'] + bytes_slice(s, 13, 15)
            + " UTC"@
    } else {
        s
    }
}

proof fn lemma_byte_len_take_mono(s: Seq<char>, i: int, j: int)
    requires
        0 <= i < j <= s.len(),
    ensures
        byte_len(s.take(i)) < byte_len(s.take(j)),
    decreases j - i,
{
    assert(s.take(j).drop_last() =~= s.take(j - 1));
    if i < j - 1 {
        lemma_byte_len_take_mono(s, i, j - 1);
    }
}

proof fn lemma_char_at_byte_unique(s: Seq<char>, b: nat, i: int)
    requires
        0 <= i <= s.len(),
        byte_len(s.take(i)) == b,
    ensures
        char_at_byte(s, b) == Some(i),
{
    let j = choose|j: int| 0 <= j <= s.len() && byte_len(s.take(j)) == b;
    if j < i {
        lemma_byte_len_take_mono(s, j, i);
    } else if i < j {
        lemma_byte_len_take_mono(s, i, j);
    }
}

fn utf8_len_exec(c: char) -> (r: usize)
    ensures
        r == utf8_len(c),
{
    let u = c as u32;
    if u < 0x80 {
        1
    } else if u < 0x800 {
        2
    } else if u < 0x10000 {
        3
    } else {
        4
    }
}

/// The character index at byte `b`, if a character starts there.
fn index_at_byte(s: &Vec<char>, b: usize) -> (r: Option<usize>)
    ensures
        match r {
            Some(i) => char_at_byte(s@, b as nat) == Some(i as int) && i <= s@.len(),
            None => char_at_byte(s@, b as nat) is None,
        },
{
    let mut i: usize = 0;
    let mut acc: usize = 0;
    assert(s@.take(0) =~= Seq::<char>::empty());
    while i < s.len() && acc < b
        invariant
            i <= s@.len(),
            acc == byte_len(s@.take(i as int)),
            acc <= b,
            forall|j: int| 0 <= j < i ==> byte_len(#[trigger] s@.take(j)) < b,
        decreases s.len() - i,
    {
        assert(s@.take(i + 1).drop_last() =~= s@.take(i as int));
        assert(s@.take(i + 1).last() == s@[i as int]);
        let w = utf8_len_exec(s[i]);
        assert(byte_len(s@.take(i + 1)) == acc + w);
        if w > b - acc {
            proof {
                assert forall|j: int| 0 <= j <= s@.len() implies byte_len(s@.take(j)) != b by {
                    if j > i + 1 {
                        lemma_byte_len_take_mono(s@, i + 1, j);
                    }
                }
                assert(!exists|j: int| 0 <= j <= s@.len() && byte_len(s@.take(j)) == b);
            }
            return None;
        }
        acc = acc + w;
        i += 1;
    }
    if acc == b {
        proof {
            lemma_char_at_byte_unique(s@, b as nat, i as int);
        }
        Some(i)
    } else {
        proof {
            assert forall|j: int| 0 <= j <= s@.len() implies byte_len(s@.take(j)) != b by {
                if j > i {
                    lemma_byte_len_take_mono(s@, i as int, j);
                }
            }
            assert(!exists|j: int| 0 <= j <= s@.len() && byte_len(s@.take(j)) == b);
        }
        None
    }
}

fn stem_exec(name: &Vec<char>) -> (r: Vec<char>)
    ensures
        r@ == snapshot_stem(name@),
{
    let pre = chars_of("rustty-sync-");
    let ext = chars_of(".bin");
    match crate::text::strip_prefix_chars(name, &pre) {
        Some(a) => match crate::text::strip_suffix_chars(&a, &ext) {
            Some(b) => b,
            None => crate::text::chars_range(name, 0, name.len()),
        },
        None => crate::text::chars_range(name, 0, name.len()),
    }
}

/// Whether a stem is a stamp.
fn is_stamp_exec(s: &Vec<char>) -> (r: bool)
    ensures
        r == is_stamp(s@),
{
    let stamp = match index_at_byte(&s, 16) {
        Some(end) => {
            if end == s.len() {
                match index_at_byte(&s, 8) {
                    Some(t) => t < s.len() && s[t] == 'T',
                    None => false,
                }
            } else {
                false
            }
        },
        None => false,
    };
    proof {
        assert(s@.take(s@.len() as int) =~= s@);
        if byte_len(s@) == 16 {
            lemma_char_at_byte_unique(s@, 16, s@.len() as int);
        }
        if let Some(e) = char_at_byte(s@, 16) {
            let j = choose|j: int| 0 <= j <= s@.len() && byte_len(s@.take(j)) == 16;
            assert(byte_len(s@.take(j)) == 16);
        }
        assert(stamp == is_stamp(s@));
    }
    stamp
}

/// The label of a snapshot file: `rustty-sync-YYYYMMDDTHHMMSSZ.bin` reads
/// `YYYY-MM-DD HH:MM:SS UTC`; any other name reads as itself (without the
/// prefix and the extension).
#[verifier::rlimit(100)]
#[verifier::spinoff_prover]
pub fn snapshot_label_from_filename(name: &str) -> (r: String)
    requires
        is_stamp(snapshot_stem(name@)) ==> stamp_cuts_ok(snapshot_stem(name@)),
    ensures
        r@ == snapshot_label(name@),
{
    let n = chars_of(name);
    proof {
        assert(n@.subrange(0, n@.len() as int) =~= n@);
    }
    let s = stem_exec(&n);
    let stamp = is_stamp_exec(&s);
    if !stamp {
        return string_of(&s);
    }
    let i4 = index_at_byte(&s, 4).unwrap();
    let i6 = index_at_byte(&s, 6).unwrap();
    let i8 = index_at_byte(&s, 8).unwrap();
    let i9 = index_at_byte(&s, 9).unwrap_or(0);
    let i11 = index_at_byte(&s, 11).unwrap();
    let i13 = index_at_byte(&s, 13).unwrap();
    let i15 = index_at_byte(&s, 15).unwrap();
    proof {
        assert(s@.take(0) =~= Seq::<char>::empty());
        lemma_char_at_byte_unique(s@, 0, 0);
        assert(s@.take(i8 + 1).drop_last() =~= s@.take(i8 as int));
        assert(s@.take(i8 + 1).last() == 'T');
        lemma_char_at_byte_unique(s@, 9, i8 + 1);
        lemma_byte_len_order(s@, i4 as int, i6 as int, 4, 6);
        lemma_byte_len_order(s@, i6 as int, i8 as int, 6, 8);
        lemma_byte_len_order(s@, (i8 + 1) as int, i11 as int, 9, 11);
        lemma_byte_len_order(s@, i11 as int, i13 as int, 11, 13);
        lemma_byte_len_order(s@, i13 as int, i15 as int, 13, 15);
    }
    let mut out: Vec<char> = crate::text::chars_range(&s, 0, i4);
    out.push('-');
    append(&mut out, &crate::text::chars_range(&s, i4, i6));
    out.push('-');
    append(&mut out, &crate::text::chars_range(&s, i6, i8));
    out.push(' ');
    append(&mut out, &crate::text::chars_range(&s, i9, i11));
    out.push(':');
    append(&mut out, &crate::text::chars_range(&s, i11, i13));
    out.push(':');
    append(&mut out, &crate::text::chars_range(&s, i13, i15));
    append(&mut out, &chars_of(" UTC"));
    proof {
        let sv = s@;
        assert(bytes_slice(sv, 0, 4) == sv.subrange(0, i4 as int));
        assert(bytes_slice(sv, 4, 6) == sv.subrange(i4 as int, i6 as int));
        assert(bytes_slice(sv, 6, 8) == sv.subrange(i6 as int, i8 as int));
        assert(bytes_slice(sv, 9, 11) == sv.subrange(i9 as int, i11 as int));
        assert(bytes_slice(sv, 11, 13) == sv.subrange(i11 as int, i13 as int));
        assert(bytes_slice(sv, 13, 15) == sv.subrange(i13 as int, i15 as int));
    }
    assert(out@ =~= snapshot_label(name@));
    string_of(&out)
}

proof fn lemma_byte_len_order(s: Seq<char>, i: int, j: int, a: nat, b: nat)
    requires
        0 <= i <= s.len(),
        0 <= j <= s.len(),
        byte_len(s.take(i)) == a,
        byte_len(s.take(j)) == b,
        a < b,
    ensures
        i < j,
{
    if j < i {
        lemma_byte_len_take_mono(s, j, i);
    }
}

/// The label of a snapshot file whose name may come from a server: `None`
/// for a stamped name whose stamp cannot be cut on character boundaries,
/// the label otherwise.
pub fn snapshot_label_checked(name: &str) -> (r: Option<String>)
    ensures
        if is_stamp(snapshot_stem(name@)) && !stamp_cuts_ok(snapshot_stem(name@)) {
            r is None
        } else {
            r matches Some(l) && l@ == snapshot_label(name@)
        },
{
    let n = chars_of(name);
    let s = stem_exec(&n);
    if is_stamp_exec(&s) {
        let ok = index_at_byte(&s, 4).is_some() && index_at_byte(&s, 6).is_some() && index_at_byte(&s, 11).is_some()
            && index_at_byte(&s, 13).is_some() && index_at_byte(&s, 15).is_some();
        if !ok {
            return None;
        }
    }
    Some(snapshot_label_from_filename(name))
}

fn append(out: &mut Vec<char>, b: &Vec<char>)
    ensures
        final(out)@ == old(out)@ + b@,
{
    let mut i: usize = 0;
    while i < b.len()
        invariant
            i <= b@.len(),
            out@ == old(out)@ + b@.take(i as int),
        decreases b.len() - i,
    {
        out.push(b[i]);
        i += 1;
        assert(out@ =~= old(out)@ + b@.take(i as int));
    }
    assert(b@.take(i as int) =~= b@);
}

// ─── The Drive history listing ───────────────────────────────────────────────

/// A file of a Drive listing, with the fields its JSON gave as strings.
#[derive(Debug, Clone, PartialEq, Eq)]
pub struct DriveFile {
    pub name: Option<String>,
    pub id: Option<String>,
    pub modified_time: Option<String>,
}

pub open spec fn opt_chars(o: Option<String>) -> Option<Seq<char>> {
    match o {
        Some(s) => Some(s@),
        None => None,
    }
}

/// A snapshot entry as `(id, label, modified)`.
pub open spec fn entry_view(e: SnapshotEntry) -> (Seq<char>, Seq<char>, Option<Seq<char>>) {
    (e.id@, e.label@, opt_chars(e.modified))
}

pub open spec fn entries_view(v: Seq<SnapshotEntry>) -> Seq<(Seq<char>, Seq<char>, Option<Seq<char>>)> {
    v.map_values(|e: SnapshotEntry| entry_view(e))
}

/// The name a Drive snapshot is labelled by: without the history prefix.
pub open spec fn drive_label_source(name: Seq<char>) -> Seq<char> {
    match crate::text::strip_prefix(name, "rustty-sync-history-"@) {
        Some(r) => r,
        None => name,
    }
}

/// The entry of a Drive file: only a file with a name and an id has one.
pub open spec fn drive_entry(f: DriveFile) -> Option<(Seq<char>, Seq<char>, Option<Seq<char>>)> {
    match (f.name, f.id) {
        (Some(n), Some(i)) => Some((i@, snapshot_label(drive_label_source(n@)), opt_chars(f.modified_time))),
        _ => None,
    }
}

/// The entries of a Drive listing, in its order.
pub open spec fn drive_entries(fs: Seq<DriveFile>) -> Seq<(Seq<char>, Seq<char>, Option<Seq<char>>)>
    decreases fs.len(),
{
    if fs.len() == 0 {
        seq![]
    } else {
        match drive_entry(fs.last()) {
            Some(e) => drive_entries(fs.drop_last()).push(e),
            None => drive_entries(fs.drop_last()),
        }
    }
}

/// Every stamped name of the listing can be cut on character boundaries
/// (labelling one that cannot would panic).
pub open spec fn drive_names_ok(fs: Seq<DriveFile>) -> bool {
    forall|i: int|
        #![trigger fs[i]]
        0 <= i < fs.len() && fs[i].id is Some && fs[i].name is Some ==> {
            let s = snapshot_stem(drive_label_source(fs[i].name->0@));
            is_stamp(s) ==> stamp_cuts_ok(s)
        }
}

/// Newest first: the labels do not increase along the list.
pub open spec fn labels_descending(es: Seq<(Seq<char>, Seq<char>, Option<Seq<char>>)>) -> bool {
    forall|a: int, b: int| 0 <= a < b < es.len() ==> !str_lt(#[trigger] es[a].1, #[trigger] es[b].1)
}

/// An entry has label `l`.
pub open spec fn label_is(l: Seq<char>) -> spec_fn((Seq<char>, Seq<char>, Option<Seq<char>>)) -> bool {
    |e: (Seq<char>, Seq<char>, Option<Seq<char>>)| e.1 == l
}

/// The entries with label `l`, in their order.
pub open spec fn with_label(es: Seq<(Seq<char>, Seq<char>, Option<Seq<char>>)>, l: Seq<char>) -> Seq<(Seq<char>, Seq<char>, Option<Seq<char>>)> {
    es.filter(label_is(l))
}

proof fn lemma_insert_with_label(
    o: Seq<(Seq<char>, Seq<char>, Option<Seq<char>>)>,
    p: int,
    x: (Seq<char>, Seq<char>, Option<Seq<char>>),
    l: Seq<char>,
)
    requires
        0 <= p <= o.len(),
        forall|q: int| p <= q < o.len() ==> str_lt(#[trigger] o[q].1, x.1),
    ensures
        with_label(o.insert(p, x), l) == if x.1 == l {
            with_label(o, l).push(x)
        } else {
            with_label(o, l)
        },
{
    let pred = label_is(l);
    let a = o.take(p);
    let b = o.skip(p);
    assert(o.insert(p, x) =~= a.push(x) + b);
    assert(o =~= a + b);
    Seq::filter_distributes_over_add(a.push(x), b, pred);
    Seq::filter_distributes_over_add(a, b, pred);
    a.lemma_filter_push(x, pred);
    if x.1 == l {
        assert forall|q: int| 0 <= q < b.len() implies !pred(#[trigger] b[q]) by {
            assert(b[q] == o[p + q]);
            lemma_lt_irrefl(x.1);
        }
        assert(b.all(|e: (Seq<char>, Seq<char>, Option<Seq<char>>)| !pred(e)));
        b.lemma_all_neg_filter_empty(pred);
        assert(b.filter(pred) =~= Seq::empty());
        assert(a.filter(pred).push(x) + b.filter(pred) =~= (a.filter(pred) + b.filter(pred)).push(x));
    }
}

/// The entries sorted by label, newest first, those of one label kept in
/// their order (a stable insertion sort).
fn sort_entries_desc(v: Vec<SnapshotEntry>) -> (out: Vec<SnapshotEntry>)
    ensures
        entries_view(out@).to_multiset() == entries_view(v@).to_multiset(),
        labels_descending(entries_view(out@)),
        forall|l: Seq<char>| #[trigger] with_label(entries_view(out@), l) == with_label(entries_view(v@), l),
        out@.len() == v@.len(),
{
    broadcast use group_to_multiset_ensures;

    let ghost src = entries_view(v@);
    let mut out: Vec<SnapshotEntry> = Vec::new();
    let ghost mut k: int = 0;
    for x in it: v.into_iter()
        invariant
            entries_view(it.seq()) == src,
            k == it.index(),
            entries_view(out@).to_multiset() == src.take(k).to_multiset(),
            labels_descending(entries_view(out@)),
            forall|l: Seq<char>| #[trigger] with_label(entries_view(out@), l) == with_label(src.take(k), l),
            out@.len() == k,
    {
        let ghost o = entries_view(out@);
        let mut p: usize = 0;
        while p < out.len() && !str_less(out[p].label.as_str(), x.label.as_str())
            invariant
                p <= out@.len(),
                o == entries_view(out@),
                forall|q: int| 0 <= q < p ==> !str_lt(#[trigger] o[q].1, x.label@),
            decreases out.len() - p,
        {
            assert(o[p as int] == entry_view(out@[p as int]));
            p += 1;
        }
        let ghost xv = entry_view(x);
        proof {
            if p < out@.len() {
                assert(o[p as int] == entry_view(out@[p as int]));
                assert(str_lt(o[p as int].1, xv.1));
                assert forall|q: int| p <= q < o.len() implies str_lt(#[trigger] o[q].1, xv.1) by {
                    if q > p {
                        assert(!str_lt(o[p as int].1, o[q].1));
                        lemma_lt_total(o[q].1, o[p as int].1);
                        if o[q].1 != o[p as int].1 {
                            lemma_lt_trans(o[q].1, o[p as int].1, xv.1);
                        }
                    }
                }
            }
        }
        out.insert(p, x);
        proof {
            let n = entries_view(out@);
            assert(n =~= o.insert(p as int, xv));
            assert(src[k] == xv);
            assert(src.take(k + 1) =~= src.take(k).push(xv));
            vstd::seq_lib::to_multiset_insert(o, p as int, xv);
            vstd::seq_lib::to_multiset_build(src.take(k), xv);
            assert forall|l: Seq<char>| #[trigger] with_label(n, l) == with_label(src.take(k + 1), l) by {
                lemma_insert_with_label(o, p as int, xv, l);
                src.take(k).lemma_filter_push(xv, label_is(l));
            }
            assert(labels_descending(n)) by {
                assert forall|a: int, b: int| 0 <= a < b < n.len() implies !str_lt(#[trigger] n[a].1, #[trigger] n[b].1) by {
                    if a < p && b < p {
                        assert(n[a] == o[a] && n[b] == o[b]);
                    } else if a < p && b == p {
                        assert(n[a] == o[a] && n[b] == xv);
                    } else if a < p && b > p {
                        assert(n[a] == o[a] && n[b] == o[b - 1]);
                    } else if a == p {
                        assert(n[a] == xv && n[b] == o[b - 1]);
                        assert(str_lt(o[b - 1].1, xv.1));
                        if str_lt(xv.1, o[b - 1].1) {
                            lemma_lt_trans(xv.1, o[b - 1].1, xv.1);
                            lemma_lt_irrefl(xv.1);
                        }
                    } else {
                        assert(n[a] == o[a - 1] && n[b] == o[b - 1]);
                    }
                }
            }
            k = k + 1;
        }
    }
    proof {
        assert(src.take(k) =~= src);
    }
    out
}

/// The history of a Drive backend from its listing: every file with a name
/// and an id, labelled by its name without the history prefix, newest label
/// first; entries of one label keep the listing's order.
pub fn drive_snapshot_entries(files: Vec<DriveFile>) -> (r: Vec<SnapshotEntry>)
    requires
        drive_names_ok(files@),
    ensures
        entries_view(r@).to_multiset() == drive_entries(files@).to_multiset(),
        labels_descending(entries_view(r@)),
        forall|l: Seq<char>| #[trigger] with_label(entries_view(r@), l) == with_label(drive_entries(files@), l),
{
    let prefix = chars_of("rustty-sync-history-");
    let mut out: Vec<SnapshotEntry> = Vec::new();
    let mut i: usize = 0;
    while i < files.len()
        invariant
            i <= files@.len(),
            prefix@ == "rustty-sync-history-"@,
            drive_names_ok(files@),
            entries_view(out@) == drive_entries(files@.take(i as int)),
        decreases files.len() - i,
    {
        let f = &files[i];
        proof {
            assert(files@.take(i + 1).drop_last() =~= files@.take(i as int));
            assert(files@.take(i + 1).last() == files@[i as int]);
        }
        match (&f.name, &f.id) {
            (Some(n), Some(id)) => {
                let nc = chars_of(n.as_str());
                let src = match crate::text::strip_prefix_chars(&nc, &prefix) {
                    Some(r) => string_of(&r),
                    None => n.clone(),
                };
                assert(src@ == drive_label_source(n@));
                let label = snapshot_label_from_filename(src.as_str());
                let e = SnapshotEntry { id: id.clone(), label, modified: f.modified_time.clone() };
                assert(entry_view(e) == drive_entry(files@[i as int])->0);
                out.push(e);
                assert(entries_view(out@) =~= drive_entries(files@.take(i + 1)));
            },
            _ => {
                assert(entries_view(out@) =~= drive_entries(files@.take(i + 1)));
            },
        }
        i += 1;
    }
    assert(files@.take(i as int) =~= files@);
    sort_entries_desc(out)
}

/// A snapshot name can be labelled: its stamp, if it has one, can be cut on
/// character boundaries.
pub open spec fn label_ok(name: Seq<char>) -> bool {
    is_stamp(snapshot_stem(name)) ==> stamp_cuts_ok(snapshot_stem(name))
}

/// The entry of a WebDAV snapshot: its name is its id, labelled, with no
/// time.
pub open spec fn webdav_entry(name: Seq<char>) -> (Seq<char>, Seq<char>, Option<Seq<char>>) {
    (name, snapshot_label(name), None)
}

/// The history of a WebDAV backend from the snapshot names its listing
/// gives: the names sorted, newest (greatest) first, each labelled.
pub fn webdav_snapshot_entries(names: Vec<String>) -> (r: Vec<SnapshotEntry>)
    requires
        forall|n: Seq<char>| #[trigger] views(names@).contains(n) ==> label_ok(n),
    ensures
        exists|s: Seq<Seq<char>>|
            #![trigger sorted_strs(s)]
            sorted_strs(s) && s.to_multiset() == views(names@).to_multiset() && entries_view(r@) == s.reverse().map_values(
                |n: Seq<char>| webdav_entry(n),
            ),
{
    broadcast use group_to_multiset_ensures;

    let ghost src = views(names@);
    let sorted = sort_strs(names);
    let ghost all = views(sorted@);
    let mut out: Vec<SnapshotEntry> = Vec::new();
    let mut j: usize = sorted.len();
    while j > 0
        invariant
            j <= sorted@.len(),
            all == views(sorted@),
            all.to_multiset() == src.to_multiset(),
            forall|n: Seq<char>| #[trigger] src.contains(n) ==> label_ok(n),
            entries_view(out@) == all.skip(j as int).reverse().map_values(|n: Seq<char>| webdav_entry(n)),
        decreases j,
    {
        j -= 1;
        let name = &sorted[j];
        proof {
            assert(all[j as int] == name@);
            assert(all.contains(name@));
            all.to_multiset_ensures();
            src.to_multiset_ensures();
            assert(all.to_multiset().count(name@) > 0);
            assert(src.contains(name@));
        }
        let label = snapshot_label_from_filename(name.as_str());
        let e = SnapshotEntry { id: name.clone(), label, modified: None };
        assert(entry_view(e) == webdav_entry(all[j as int]));
        let ghost before = entries_view(out@);
        out.push(e);
        proof {
            assert(entries_view(out@) =~= before.push(entry_view(e)));
            assert(all.skip(j as int).reverse() =~= all.skip(j + 1).reverse().push(name@));
            assert(all.skip(j as int).reverse().map_values(|n: Seq<char>| webdav_entry(n)) =~= all.skip(j + 1).reverse().map_values(
                |n: Seq<char>| webdav_entry(n),
            ).push(webdav_entry(name@)));
            assert(entries_view(out@) =~= all.skip(j as int).reverse().map_values(|n: Seq<char>| webdav_entry(n)));
        }
    }
    assert(all.skip(0) =~= all);
    out
}

} // verus!
