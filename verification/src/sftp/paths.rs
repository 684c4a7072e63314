//! Remote path helpers of the file browser. Remote paths are POSIX (`/`),
//! whatever the local platform.
use vstd::prelude::*;
use crate::text::{chars_of, debug_string, debug_text, push_chars, push_dec, push_str, string_of, dec};

verus! {

/// `s` without its trailing `/` characters (`trim_end_matches('/')`).
pub open spec fn trim_end_slashes(s: Seq<char>) -> Seq<char>
    decreases s.len(),
{
    if s.len() > 0 && s.last() == '/' {
        trim_end_slashes(s.drop_last())
    } else {
        s
    }
}

/// Index of the last occurrence of `c` in `s`.
pub open spec fn last_index_of(s: Seq<char>, c: char) -> Option<int>
    decreases s.len(),
{
    if s.len() == 0 {
        None
    } else if s.last() == c {
        Some(s.len() - 1)
    } else {
        last_index_of(s.drop_last(), c)
    }
}

/// Joins a remote directory and an entry name: an empty or `.` base gives
/// the name alone, a base ending in `/` is not doubled.
pub open spec fn join_remote_spec(base: Seq<char>, name: Seq<char>) -> Seq<char> {
    if base.len() == 0 || base == seq!['.'] {
        name
    } else if base.last() == '/' {
        base + name
    } else {
        base + seq!['/'] + name
    }
}

/// Parent of a remote path: `/` for a top-level entry, `.` when the path has
/// no directory part.
pub open spec fn remote_parent_spec(path: Seq<char>) -> Seq<char> {
    let t = trim_end_slashes(path);
    match last_index_of(t, '/') {
        Some(i) => if i == 0 {
            seq!['/']
        } else {
            t.take(i)
        },
        None => seq!['.'],
    }
}

/// Last component of a remote path (trailing `/` ignored).
pub open spec fn remote_name_spec(path: Seq<char>) -> Seq<char> {
    let t = trim_end_slashes(path);
    let seg = match last_index_of(t, '/') {
        Some(i) => t.skip(i + 1),
        None => t,
    };
    if seg.len() > 0 {
        seg
    } else {
        t
    }
}

/// Kind of a component of a local path, as `std::path::Component` tells
/// them apart.
#[derive(Debug, Clone, Copy, PartialEq, Eq, Structural)]
pub enum PathPart {
    /// A Windows prefix (`C:`, `\\\\server\\share`).
    Prefix,
    /// The root directory.
    RootDir,
    /// `.` at the start of a path.
    CurDir,
    /// `..`.
    ParentDir,
    /// A plain name.
    Normal,
}

/// The kinds of the components `Path::components` finds in a local path.
pub uninterp spec fn path_components_of(path: Seq<char>) -> Seq<PathPart>;

/// `std::path::Path::components`, each component told by its kind. The
/// contract names the result.
#[verifier::external_body]
fn path_components(path: &str) -> (r: Vec<PathPart>)
    ensures
        r@ == path_components_of(path@),
{
    std::path::Path::new(path)
        .components()
        .map(|c| match c {
            std::path::Component::Prefix(_) => PathPart::Prefix,
            std::path::Component::RootDir => PathPart::RootDir,
            std::path::Component::CurDir => PathPart::CurDir,
            std::path::Component::ParentDir => PathPart::ParentDir,
            std::path::Component::Normal(_) => PathPart::Normal,
        })
        .collect()
}

/// A name a server may hand out for a directory entry without escaping the
/// chosen destination: not empty, not `.` or `..`, without separators, and
/// read by the local platform as exactly one plain name (no drive prefix,
/// no root).
pub open spec fn is_safe_entry_name(name: Seq<char>) -> bool {
    &&& name.len() > 0
    &&& name != seq!['.']
    &&& name != seq!['.', '.']
    &&& !name.contains('/')
    &&& !name.contains('\\')
    &&& path_components_of(name) == seq![PathPart::Normal]
}

pub open spec fn unsafe_entry_message(name: Seq<char>) -> Seq<char> {
    "el servidor devolvió un nombre de entrada no seguro: "@ + debug_text(name)
}

pub(crate) fn trim_end_slashes_exec(s: &Vec<char>) -> (r: Vec<char>)
    ensures
        r@ == trim_end_slashes(s@),
{
    let mut n = s.len();
    assert(s@.take(n as int) =~= s@);
    while n > 0 && s[n - 1] == '/'
        invariant
            n <= s@.len(),
            trim_end_slashes(s@.take(n as int)) == trim_end_slashes(s@),
        decreases n,
    {
        assert(s@.take(n as int).drop_last() =~= s@.take(n - 1));
        n -= 1;
    }
    crate::text::chars_range(s, 0, n)
}

fn last_index_exec(s: &Vec<char>, c: char) -> (r: Option<usize>)
    ensures
        r matches Some(i) ==> last_index_of(s@, c) == Some(i as int) && i < s@.len() && s@[i as int] == c,
        r is None ==> last_index_of(s@, c) is None,
{
    let mut n = s.len();
    assert(s@.take(n as int) =~= s@);
    while n > 0
        invariant
            n <= s@.len(),
            last_index_of(s@, c) == last_index_of(s@.take(n as int), c),
        decreases n,
    {
        let ghost t = s@.take(n as int);
        if s[n - 1] == c {
            assert(t.last() == c);
            return Some(n - 1);
        }
        assert(t.drop_last() =~= s@.take(n - 1));
        n -= 1;
    }
    None
}

/// `base` joined with `name` by a single `/`.
pub fn join_remote(base: &str, name: &str) -> (r: String)
    ensures
        r@ == join_remote_spec(base@, name@),
{
    let b = chars_of(base);
    let dot: Vec<char> = vec!['.'];
    assert(dot@ =~= seq!['.']);
    if b.len() == 0 || crate::text::chars_eq(&b, &dot) {
        return string_of(&chars_of(name));
    }
    let mut out = string_of(&b);
    let last = b[b.len() - 1];
    assert(last == base@.last());
    if last != '/' {
        crate::text::push_char(&mut out, '/');
        assert(out@ =~= base@ + seq!['/']);
    }
    push_str(&mut out, name);
    out
}

/// The remote directory that holds `path`.
pub fn remote_parent(path: &str) -> (r: String)
    ensures
        r@ == remote_parent_spec(path@),
{
    let t = trim_end_slashes_exec(&chars_of(path));
    match last_index_exec(&t, '/') {
        Some(i) => {
            if i == 0 {
                let slash: Vec<char> = vec!['/'];
                assert(slash@ =~= seq!['/']);
                string_of(&slash)
            } else {
                let p = crate::text::chars_range(&t, 0, i);
                assert(p@ =~= t@.take(i as int));
                string_of(&p)
            }
        },
        None => {
            let dot: Vec<char> = vec!['.'];
            assert(dot@ =~= seq!['.']);
            string_of(&dot)
        },
    }
}

/// The last component of `path`.
pub fn remote_name(path: &str) -> (r: String)
    ensures
        r@ == remote_name_spec(path@),
{
    let t = trim_end_slashes_exec(&chars_of(path));
    let seg = match last_index_exec(&t, '/') {
        Some(i) => {
            assert(i < t.len());
            crate::text::tail(&t, i + 1)
        },
        None => crate::text::chars_range(&t, 0, t.len()),
    };
    assert(t@.subrange(0, t@.len() as int) =~= t@);
    if seg.len() > 0 {
        string_of(&seg)
    } else {
        string_of(&t)
    }
}

/// Accepts a directory entry name from a listing only if it is a single safe
/// path component (servers may hand out `../../.bashrc`, `a/b` or absolute
/// paths).
pub fn safe_entry_name(name: &str) -> (r: Result<(), String>)
    ensures
        match r {
            Ok(()) => is_safe_entry_name(name@),
            Err(e) => !is_safe_entry_name(name@) && e@ == unsafe_entry_message(name@),
        },
{
    let cs = chars_of(name);
    let dot: Vec<char> = vec!['.'];
    let dotdot: Vec<char> = vec!['.', '.'];
    assert(dot@ =~= seq!['.']);
    assert(dotdot@ =~= seq!['.', '.']);
    let mut bad = cs.len() == 0 || crate::text::chars_eq(&cs, &dot) || crate::text::chars_eq(&cs, &dotdot);
    let mut i: usize = 0;
    while i < cs.len()
        invariant
            i <= cs@.len(),
            cs@ == name@,
            bad == (cs@.len() == 0 || cs@ == seq!['.'] || cs@ == seq!['.', '.'] || exists|k: int|
                0 <= k < i && (cs@[k] == '/' || cs@[k] == '\\')),
        decreases cs.len() - i,
    {
        if cs[i] == '/' || cs[i] == '\\' {
            bad = true;
        }
        i += 1;
    }
    proof {
        if name@.contains('/') {
            let k = choose|k: int| 0 <= k < name@.len() && name@[k] == '/';
            assert(cs@[k] == '/');
        }
        if name@.contains('\\') {
            let k = choose|k: int| 0 <= k < name@.len() && name@[k] == '\\';
            assert(cs@[k] == '\\');
        }
        if bad && !(cs@.len() == 0 || cs@ == seq!['.'] || cs@ == seq!['.', '.']) {
            let k = choose|k: int| 0 <= k < i && (cs@[k] == '/' || cs@[k] == '\\');
            assert(name@.contains(cs@[k]));
        }
    }
    if !bad {
        let parts = path_components(name);
        bad = !(parts.len() == 1 && parts[0] == PathPart::Normal);
        proof {
            if !bad {
                assert(parts@ =~= seq![PathPart::Normal]);
            }
        }
    }
    if bad {
        let mut msg = String::new();
        push_str(&mut msg, "el servidor devolvió un nombre de entrada no seguro: ");
        let d = debug_string(name);
        push_str(&mut msg, d.as_str());
        proof {
            reveal_strlit("el servidor devolvió un nombre de entrada no seguro: ");
        }
        return Err(msg);
    }
    Ok(())
}

// ─── Renaming on conflict ───────────────────────────────────────────────────

/// Split of a remote file name into stem and extension: the extension starts
/// at the last `.` that is neither the first nor the last character.
pub open spec fn name_stem_ext(name: Seq<char>) -> (Seq<char>, Seq<char>) {
    match last_index_of(name, '.') {
        Some(i) => if 0 < i && i < name.len() - 1 {
            (name.take(i), name.skip(i))
        } else {
            (name, seq![])
        },
        None => (name, seq![]),
    }
}

/// The `i`-th candidate name when a remote destination already exists:
/// `<stem> (<i>)<ext>` in the same directory.
pub open spec fn remote_rename_candidate_spec(remote: Seq<char>, i: nat) -> Seq<char> {
    let (parent, name) = match last_index_of(remote, '/') {
        Some(k) => (remote.take(k), remote.skip(k + 1)),
        None => (seq![], remote),
    };
    let (stem, ext) = name_stem_ext(name);
    let candidate = stem + " ("@ + dec(i) + seq![')'] + ext;
    if parent.len() == 0 {
        candidate
    } else {
        join_remote_spec(parent, candidate)
    }
}

/// Candidate number `i` for a remote destination that already exists.
pub fn remote_rename_candidate(remote: &str, i: u64) -> (r: String)
    ensures
        r@ == remote_rename_candidate_spec(remote@, i as nat),
{
    let cs = chars_of(remote);
    assert(cs@.subrange(0, cs@.len() as int) =~= cs@);
    let (parent, name) = match last_index_exec(&cs, '/') {
        Some(k) => {
            let p = crate::text::chars_range(&cs, 0, k);
            assert(p@ =~= cs@.take(k as int));
            assert(k < cs.len());
            (p, crate::text::tail(&cs, k + 1))
        },
        None => {
            let e: Vec<char> = Vec::new();
            assert(e@ =~= Seq::<char>::empty());
            (e, crate::text::chars_range(&cs, 0, cs.len()))
        },
    };
    assert(name@.subrange(0, name@.len() as int) =~= name@);
    let (stem, ext) = match last_index_exec(&name, '.') {
        Some(k) => {
            if 0 < k && k < name.len() - 1 {
                let st = crate::text::chars_range(&name, 0, k);
                assert(st@ =~= name@.take(k as int));
                (st, crate::text::tail(&name, k))
            } else {
                let e: Vec<char> = Vec::new();
                assert(e@ =~= Seq::<char>::empty());
                (crate::text::chars_range(&name, 0, name.len()), e)
            }
        },
        None => {
            let e: Vec<char> = Vec::new();
            assert(e@ =~= Seq::<char>::empty());
            (crate::text::chars_range(&name, 0, name.len()), e)
        },
    };
    assert(stem@ == name_stem_ext(name@).0);
    assert(ext@ == name_stem_ext(name@).1);
    let mut cand = string_of(&stem);
    push_str(&mut cand, " (");
    push_dec(&mut cand, i);
    crate::text::push_char(&mut cand, ')');
    push_chars(&mut cand, &ext);
    assert(cand@ =~= stem@ + " ("@ + dec(i as nat) + seq![')'] + ext@);
    if parent.len() == 0 {
        cand
    } else {
        let p = string_of(&parent);
        join_remote(p.as_str(), cand.as_str())
    }
}


/// Where the last `c` of `s` is: at that index, and nowhere after it; no
/// index means no `c` at all.
pub proof fn lemma_last_index_of(s: Seq<char>, c: char)
    ensures
        match last_index_of(s, c) {
            Some(i) => 0 <= i < s.len() && s[i] == c && forall|j: int| i < j < s.len() ==> s[j] != c,
            None => !s.contains(c),
        },
    decreases s.len(),
{
    if s.len() > 0 && s.last() != c {
        let t = s.drop_last();
        lemma_last_index_of(t, c);
        assert forall|j: int| 0 <= j < t.len() implies t[j] == s[j] by {}
        if s.contains(c) {
            let j = choose|j: int| 0 <= j < s.len() && s[j] == c;
            assert(t[j] == c);
        }
    }
}

/// The name of a remote path: what follows its last `/`.
pub open spec fn after_last_slash(remote: Seq<char>) -> Seq<char> {
    match last_index_of(remote, '/') {
        Some(k) => remote.skip(k + 1),
        None => remote,
    }
}

proof fn lemma_stem_ext_cut(name: Seq<char>) -> (p: int)
    ensures
        0 <= p <= name.len(),
        name_stem_ext(name) == (name.take(p), name.skip(p)),
        p < name.len() ==> 0 < p < name.len() - 1 && name[p] == '.' && !name.skip(p + 1).contains('.'),
        p == name.len() ==> forall|j: int| 0 < j < name.len() - 1 && name[j] == '.' ==> name.last() == '.',
        !name.contains('.') ==> p == name.len(),
{
    lemma_last_index_of(name, '.');
    let p: int = match last_index_of(name, '.') {
        Some(j) => if 0 < j && j < name.len() - 1 {
            j
        } else {
            name.len() as int
        },
        None => name.len() as int,
    };
    if p == name.len() {
        assert(name.take(p) =~= name);
        assert(name.skip(p) =~= Seq::<char>::empty());
        assert forall|j: int| 0 < j < name.len() - 1 && name[j] == '.' implies name.last() == '.' by {
            assert(name.contains('.'));
        }
    } else {
        let t = name.skip(p + 1);
        if t.contains('.') {
            let j = choose|j: int| 0 <= j < t.len() && t[j] == '.';
            assert(t[j] == name[p + 1 + j]);
        }
    }
    p
}

proof fn lemma_candidate_dir(remote: Seq<char>, cand: Seq<char>) -> (d: Seq<char>)
    ensures
        d.len() + after_last_slash(remote).len() <= remote.len(),
        d == remote.take(d.len() as int),
        last_index_of(remote, '/') is Some && last_index_of(remote, '/')->0 > 0 && remote.take(
            last_index_of(remote, '/')->0,
        ) != seq!['.'] ==> d.len() >= last_index_of(remote, '/')->0,
        d + cand == (match last_index_of(remote, '/') {
            Some(k) => if remote.take(k).len() == 0 {
                cand
            } else {
                join_remote_spec(remote.take(k), cand)
            },
            None => cand,
        }),
{
    lemma_last_index_of(remote, '/');
    match last_index_of(remote, '/') {
        Some(k) => {
            let parent = remote.take(k);
            assert(remote =~= parent + seq!['/'] + remote.skip(k + 1));
            if parent.len() == 0 || parent == seq!['.'] {
                let d: Seq<char> = seq![];
                assert(d + cand =~= cand);
                assert(d =~= remote.take(0));
                d
            } else if parent.last() == '/' {
                parent
            } else {
                let d = parent + seq!['/'];
                assert(d =~= remote.take(k + 1));
                d
            }
        },
        None => {
            let d: Seq<char> = seq![];
            assert(d + cand =~= cand);
            assert(d =~= remote.take(0));
            d
        },
    }
}

/// A rename candidate stays in the directory of the path and is its name
/// with ` (i)` inserted: before the extension (a last `.` that is neither
/// the first nor the last character of the name), or at the end when there
/// is none — in particular at the end of a name without any `.`.
#[verifier::rlimit(50)]
pub proof fn lemma_rename_candidate_inserts_number(remote: Seq<char>, i: nat)
    ensures
        ({
            let name = after_last_slash(remote);
            let tag = " ("@ + dec(i) + seq![')'];
            exists|d: Seq<char>, p: int|
                #![trigger d.len(), name.take(p)]
                {
                    &&& d.len() + name.len() <= remote.len()
                    &&& d == remote.take(d.len() as int)
                    &&& (last_index_of(remote, '/') is Some && last_index_of(remote, '/')->0 > 0 && remote.take(
                        last_index_of(remote, '/')->0,
                    ) != seq!['.'] ==> d.len() >= last_index_of(remote, '/')->0)
                    &&& 0 <= p <= name.len()
                    &&& (p < name.len() ==> 0 < p < name.len() - 1 && name[p] == '.' && !name.skip(p + 1).contains('.'))
                    &&& (p == name.len() ==> forall|j: int| 0 < j < name.len() - 1 && name[j] == '.' ==> name.last() == '.')
                    &&& remote_rename_candidate_spec(remote, i) == d + name.take(p) + tag + name.skip(p)
                }
        }),
        !after_last_slash(remote).contains('.') ==> exists|d: Seq<char>|
            #![trigger d.len()]
            d == remote.take(d.len() as int) && remote_rename_candidate_spec(remote, i) == d + after_last_slash(remote)
                + " ("@ + dec(i) + seq![')'],
{
    let name = after_last_slash(remote);
    let tag = " ("@ + dec(i) + seq![')'];
    let p = lemma_stem_ext_cut(name);
    let cand = name.take(p) + tag + name.skip(p);
    let d = lemma_candidate_dir(remote, cand);
    let (stem, ext) = name_stem_ext(name);
    assert(stem + " ("@ + dec(i) + seq![')'] + ext =~= cand);
    assert(remote_rename_candidate_spec(remote, i) == d + cand);
    assert(d + cand =~= d + name.take(p) + tag + name.skip(p));
    assert({
        &&& d.len() + name.len() <= remote.len()
        &&& d == remote.take(d.len() as int)
        &&& 0 <= p <= name.len()
        &&& remote_rename_candidate_spec(remote, i) == d + name.take(p) + tag + name.skip(p)
    });
    if !name.contains('.') {
        assert(name.take(p) =~= name);
        assert(name.skip(p) =~= Seq::<char>::empty());
        assert(d + cand =~= d + name + tag);
    }
}

proof fn lemma_last_slash_before_name(a: Seq<char>, n: Seq<char>)
    requires
        !n.contains('/'),
    ensures
        last_index_of(a + seq!['/'] + n, '/') == Some(a.len() as int),
    decreases n.len(),
{
    let t = a + seq!['/'] + n;
    if n.len() == 0 {
        assert(t.last() == '/');
    } else {
        assert(n.last() != '/') by {
            assert(n[n.len() - 1] == n.last());
        }
        assert(!n.drop_last().contains('/')) by {
            if n.drop_last().contains('/') {
                let j = choose|j: int| 0 <= j < n.drop_last().len() && n.drop_last()[j] == '/';
                assert(n[j] == '/');
            }
        }
        assert(t.drop_last() =~= a + seq!['/'] + n.drop_last());
        lemma_last_slash_before_name(a, n.drop_last());
    }
}

/// Joining a directory and an entry name and then taking the path apart
/// gives both back: the name of `join(base, name)` is `name` and its parent
/// is `base` (for a directory written without a trailing `/`, other than
/// `.`, and a name that is a single non-empty component).
pub proof fn lemma_join_then_split(base: Seq<char>, name: Seq<char>)
    requires
        base.len() > 0,
        base != seq!['.'],
        base.last() != '/',
        name.len() > 0,
        !name.contains('/'),
    ensures
        remote_name_spec(join_remote_spec(base, name)) == name,
        remote_parent_spec(join_remote_spec(base, name)) == base,
{
    let j = join_remote_spec(base, name);
    assert(j == base + seq!['/'] + name);
    assert(j.last() == name.last());
    assert(name.last() != '/') by {
        assert(name[name.len() - 1] == name.last());
    }
    assert(trim_end_slashes(j) == j);
    lemma_last_slash_before_name(base, name);
    assert(j.take(base.len() as int) =~= base);
    assert(j.skip(base.len() as int + 1) =~= name);
}

/// An entry name accepted as safe stays inside the directory it is joined
/// to: the joined path's parent is that directory and its name is the entry.
pub proof fn lemma_safe_name_stays_in_dir(base: Seq<char>, name: Seq<char>)
    requires
        base.len() > 0,
        base != seq!['.'],
        base.last() != '/',
        is_safe_entry_name(name),
    ensures
        remote_parent_spec(join_remote_spec(base, name)) == base,
        remote_name_spec(join_remote_spec(base, name)) == name,
{
    lemma_join_then_split(base, name);
}

// ─── Local temporary files ───────────────────────────────────────────────────

/// What `Path::file_name` gives for a local path (as text).
pub uninterp spec fn file_name_of(path: Seq<char>) -> Option<Seq<char>>;

/// What `Path::with_file_name` gives for a local path and a new name.
pub uninterp spec fn with_file_name_of(path: Seq<char>, name: Seq<char>) -> Seq<char>;

/// `std::path::Path::file_name`: the last component of a local path when it
/// is a name (`None` for a root, an empty path or a path ending in `..`).
/// The contract names the result.
#[verifier::external_body]
pub(crate) fn path_file_name(path: &str) -> (r: Option<String>)
    ensures
        match r {
            Some(n) => file_name_of(path@) == Some(n@),
            None => file_name_of(path@) is None,
        },
{
    std::path::Path::new(path).file_name().map(|n| n.to_string_lossy().into_owned())
}

/// `std::path::Path::with_file_name`: the path with its last name replaced
/// by `name` (or `name` pushed when it has none). The contract names the
/// result.
#[verifier::external_body]
fn path_with_file_name(path: &str, name: &str) -> (r: String)
    ensures
        r@ == with_file_name_of(path@, name@),
{
    std::path::Path::new(path).with_file_name(name).to_string_lossy().into_owned()
}

/// The name of a local file with `suffix` appended, beside it.
pub open spec fn sibling_spec(path: Seq<char>, suffix: Seq<char>) -> Seq<char> {
    with_file_name_of(
        path,
        match file_name_of(path) {
            Some(n) => n,
            None => "descarga"@,
        } + suffix,
    )
}

pub(crate) fn sibling_with_suffix(path: &str, suffix: &str) -> (r: String)
    ensures
        r@ == sibling_spec(path@, suffix@),
{
    let mut name = match path_file_name(path) {
        Some(n) => n,
        None => string_of(&chars_of("descarga")),
    };
    push_str(&mut name, suffix);
    path_with_file_name(path, name.as_str())
}

/// The temporary file of a download: `<name>.rustty-part` in the folder of
/// the final destination, so that the closing rename never crosses file
/// systems.
pub fn part_path(final_path: &str) -> (r: String)
    ensures
        r@ == sibling_spec(final_path@, crate::sftp::types::PART_SUFFIX@),
{
    sibling_with_suffix(final_path, crate::sftp::types::PART_SUFFIX)
}

} // verus!
