//! Order of a remote listing: folders first, then by name without regard to
//! case; entries that compare equal keep the order the server gave.
use vstd::prelude::*;
use crate::sftp::types::FileEntry;
use crate::text::{lemma_lt_irrefl, lemma_lt_total, lemma_lt_trans, lowercase, lowercase_of, str_less, str_lt};

verus! {

/// What an entry is ordered by: whether it is a folder and its lowercased
/// name.
pub open spec fn entry_key(e: FileEntry) -> (bool, Seq<char>) {
    (e.is_dir, lowercase_of(e.name@))
}

/// `a` goes strictly before `b`: a folder before a file, else the lesser
/// lowercased name.
pub open spec fn key_lt(a: (bool, Seq<char>), b: (bool, Seq<char>)) -> bool {
    (a.0 && !b.0) || (a.0 == b.0 && str_lt(a.1, b.1))
}

/// No entry goes before one that precedes it.
pub open spec fn listing_sorted(s: Seq<FileEntry>) -> bool {
    forall|i: int, j: int| 0 <= i < j < s.len() ==> !key_lt(entry_key(#[trigger] s[j]), entry_key(#[trigger] s[i]))
}

/// The entries of `s` whose key is `k`, in their order in `s`.
pub open spec fn with_key(s: Seq<FileEntry>, k: (bool, Seq<char>)) -> Seq<FileEntry>
    decreases s.len(),
{
    if s.len() == 0 {
        seq![]
    } else if entry_key(s.last()) == k {
        with_key(s.drop_last(), k).push(s.last())
    } else {
        with_key(s.drop_last(), k)
    }
}

proof fn lemma_key_lt_trans(a: (bool, Seq<char>), b: (bool, Seq<char>), c: (bool, Seq<char>))
    requires
        key_lt(a, b),
        key_lt(b, c),
    ensures
        key_lt(a, c),
{
    if a.0 == b.0 && b.0 == c.0 {
        lemma_lt_trans(a.1, b.1, c.1);
    }
}

proof fn lemma_key_lt_irrefl(a: (bool, Seq<char>))
    ensures
        !key_lt(a, a),
{
    lemma_lt_irrefl(a.1);
}

proof fn lemma_key_total(a: (bool, Seq<char>), b: (bool, Seq<char>))
    ensures
        a != b ==> key_lt(a, b) || key_lt(b, a),
{
    lemma_lt_total(a.1, b.1);
}

/// Inserting `x` where every later entry has a greater key adds `x` at the
/// end of its key's run and leaves the other runs as they were.
proof fn lemma_with_key_insert(s: Seq<FileEntry>, p: int, x: FileEntry, k: (bool, Seq<char>))
    requires
        0 <= p <= s.len(),
        forall|q: int| p <= q < s.len() ==> key_lt(entry_key(x), #[trigger] entry_key(s[q])),
    ensures
        with_key(s.insert(p, x), k) == (if entry_key(x) == k {
            with_key(s, k).push(x)
        } else {
            with_key(s, k)
        }),
    decreases s.len(),
{
    if p == s.len() {
        assert(s.insert(p, x) =~= s.push(x));
        assert(s.push(x).drop_last() =~= s);
    } else {
        let t = s.drop_last();
        assert(s.insert(p, x) =~= t.insert(p, x).push(s.last()));
        assert(t.insert(p, x).push(s.last()).drop_last() =~= t.insert(p, x));
        assert(key_lt(entry_key(x), entry_key(s[s.len() - 1])));
        lemma_key_lt_irrefl(entry_key(x));
        assert forall|q: int| p <= q < t.len() implies key_lt(entry_key(x), #[trigger] entry_key(t[q])) by {
            assert(t[q] == s[q]);
        }
        lemma_with_key_insert(t, p, x, k);
    }
}

/// The key of an entry, computed.
fn key_of(e: &FileEntry) -> (r: (bool, String))
    ensures
        r.0 == entry_key(*e).0,
        r.1@ == entry_key(*e).1,
{
    (e.is_dir, lowercase(e.name.as_str()))
}

fn lt_exec(a: &(bool, String), b: &(bool, String)) -> (r: bool)
    ensures
        r == key_lt((a.0, a.1@), (b.0, b.1@)),
{
    (a.0 && !b.0) || (a.0 == b.0 && str_less(a.1.as_str(), b.1.as_str()))
}

/// Puts a listing in order: folders first, then by lowercased name; the
/// sort is stable.
pub fn sort_listing(entries: Vec<FileEntry>) -> (r: Vec<FileEntry>)
    ensures
        r@.len() == entries@.len(),
        listing_sorted(r@),
        forall|k: (bool, Seq<char>)| #[trigger] with_key(r@, k) == with_key(entries@, k),
{
    let ghost src = entries@;
    let mut out: Vec<FileEntry> = Vec::new();
    let mut keys: Vec<(bool, String)> = Vec::new();
    let ghost mut n: int = 0;
    for x in it: entries.into_iter()
        invariant
            it.seq() == src,
            n == it.index(),
            out@.len() == n,
            keys@.len() == out@.len(),
            forall|q: int| 0 <= q < keys@.len() ==> (keys@[q].0, #[trigger] keys@[q].1@) == entry_key(out@[q]),
            listing_sorted(out@),
            forall|k: (bool, Seq<char>)| #[trigger] with_key(out@, k) == with_key(src.take(n), k),
    {
        let kx = key_of(&x);
        let mut p: usize = 0;
        while p < out.len() && !lt_exec(&kx, &keys[p])
            invariant
                p <= out@.len(),
                keys@.len() == out@.len(),
                forall|q: int| 0 <= q < keys@.len() ==> (keys@[q].0, #[trigger] keys@[q].1@) == entry_key(out@[q]),
                (kx.0, kx.1@) == entry_key(x),
                forall|q: int| 0 <= q < p ==> !key_lt(entry_key(x), #[trigger] entry_key(out@[q])),
            decreases out.len() - p,
        {
            p += 1;
        }
        let ghost o = out@;
        proof {
            assert forall|q: int| p <= q < o.len() implies key_lt(entry_key(x), #[trigger] entry_key(o[q])) by {
                if q > p {
                    assert(key_lt(entry_key(x), entry_key(o[p as int])));
                    assert(!key_lt(entry_key(o[q]), entry_key(o[p as int])));
                    lemma_key_total(entry_key(o[q]), entry_key(o[p as int]));
                    if entry_key(o[q]) != entry_key(o[p as int]) {
                        lemma_key_lt_trans(entry_key(x), entry_key(o[p as int]), entry_key(o[q]));
                    }
                }
            }
        }
        let ghost xv = x;
        let ghost ok = keys@;
        let ghost kxv = kx;
        out.insert(p, x);
        keys.insert(p, kx);
        proof {
            let nw = out@;
            assert(nw =~= o.insert(p as int, xv));
            assert(keys@ =~= ok.insert(p as int, kxv));
            assert forall|q: int| 0 <= q < keys@.len() implies (keys@[q].0, #[trigger] keys@[q].1@) == entry_key(out@[q]) by {
                if q < p {
                    assert(keys@[q] == ok[q] && out@[q] == o[q]);
                } else if q == p {
                    assert(keys@[q] == kxv && out@[q] == xv);
                } else {
                    assert(keys@[q] == ok[q - 1] && out@[q] == o[q - 1]);
                }
            }
            assert(src[n] == xv);
            assert(src.take(n + 1) =~= src.take(n).push(xv));
            assert forall|k: (bool, Seq<char>)| #[trigger] with_key(out@, k) == with_key(src.take(n + 1), k) by {
                lemma_with_key_insert(o, p as int, xv, k);
                assert(src.take(n + 1).drop_last() =~= src.take(n));
            }
            assert forall|a: int, b: int| 0 <= a < b < nw.len() implies !key_lt(entry_key(#[trigger] nw[b]), entry_key(#[trigger] nw[a])) by {
                if a < p && b < p {
                    assert(nw[a] == o[a] && nw[b] == o[b]);
                } else if a < p && b == p {
                    assert(nw[a] == o[a] && nw[b] == xv);
                } else if a < p && b > p {
                    assert(nw[a] == o[a] && nw[b] == o[b - 1]);
                } else if a == p {
                    assert(nw[a] == xv && nw[b] == o[b - 1]);
                    assert(key_lt(entry_key(xv), entry_key(o[b - 1])));
                    if key_lt(entry_key(o[b - 1]), entry_key(xv)) {
                        lemma_key_lt_trans(entry_key(xv), entry_key(o[b - 1]), entry_key(xv));
                        lemma_key_lt_irrefl(entry_key(xv));
                    }
                } else {
                    assert(nw[a] == o[a - 1] && nw[b] == o[b - 1]);
                }
            }
            n = n + 1;
        }
    }
    proof {
        assert(src.take(n) =~= src);
    }
    out
}


/// The entries of `s` other than `.` and `..`, in order.
pub open spec fn without_dots(s: Seq<FileEntry>) -> Seq<FileEntry>
    decreases s.len(),
{
    if s.len() == 0 {
        seq![]
    } else if s.last().name@ == "."@ || s.last().name@ == ".."@ {
        without_dots(s.drop_last())
    } else {
        without_dots(s.drop_last()).push(s.last())
    }
}

/// Drops the `.` and `..` entries some FTP servers list.
pub fn drop_dot_entries(entries: Vec<FileEntry>) -> (r: Vec<FileEntry>)
    ensures
        r@ == without_dots(entries@),
{
    let ghost src = entries@;
    let mut out: Vec<FileEntry> = Vec::new();
    let ghost mut n: int = 0;
    for x in it: entries.into_iter()
        invariant
            it.seq() == src,
            n == it.index(),
            out@ == without_dots(src.take(n)),
    {
        proof {
            assert(src[n] == x);
            assert(src.take(n + 1).drop_last() =~= src.take(n));
            assert(src.take(n + 1).last() == x);
        }
        let dot = crate::text::str_eq(x.name.as_str(), ".") || crate::text::str_eq(x.name.as_str(), "..");
        if !dot {
            out.push(x);
        }
        proof {
            n = n + 1;
        }
    }
    proof {
        assert(src.take(n) =~= src);
    }
    out
}

} // verus!
