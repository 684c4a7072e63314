//! The tolerant reading of WebDAV `PROPFIND` answers: the `href` elements,
//! whatever their namespace prefix, case, attributes, CDATA or self-closing
//! form, and the snapshot names among them. Not a general XML parser.
use vstd::prelude::*;
use crate::codec::{url_decode, url_decoded};
use crate::sftp::paths::{last_index_of, trim_end_slashes};
use crate::text::{chars_of, has_prefix, has_suffix, string_of, trim, ws_token};

verus! {

// ─── Specification ───────────────────────────────────────────────────────────

/// Index of the first `c` in `s`.
pub open spec fn first_index_of(s: Seq<char>, c: char) -> Option<nat>
    decreases s.len(),
{
    if s.len() == 0 {
        None
    } else if s[0] == c {
        Some(0)
    } else {
        match first_index_of(s.drop_first(), c) {
            Some(i) => Some(i + 1),
            None => None,
        }
    }
}

/// Index of the first occurrence of `p` in `s`.
pub open spec fn find_seq(s: Seq<char>, p: Seq<char>) -> Option<nat>
    decreases s.len(),
{
    if s.len() < p.len() {
        None
    } else if s.take(p.len() as int) == p {
        Some(0)
    } else if s.len() == 0 {
        None
    } else {
        match find_seq(s.drop_first(), p) {
            Some(i) => Some(i + 1),
            None => None,
        }
    }
}

pub proof fn lemma_first_index_of(s: Seq<char>, c: char)
    ensures
        first_index_of(s, c) matches Some(i) ==> i < s.len() && s[i as int] == c && forall|k: int|
            0 <= k < i ==> s[k] != c,
        first_index_of(s, c) is None ==> forall|k: int| 0 <= k < s.len() ==> s[k] != c,
    decreases s.len(),
{
    if s.len() > 0 && s[0] != c {
        let t = s.drop_first();
        lemma_first_index_of(t, c);
        match first_index_of(t, c) {
            Some(j) => {
                assert(s[(j + 1) as int] == t[j as int]);
                assert forall|k: int| 0 <= k < j + 1 implies s[k] != c by {
                    if k > 0 {
                        assert(s[k] == t[k - 1]);
                    }
                }
            },
            None => {
                assert forall|k: int| 0 <= k < s.len() implies s[k] != c by {
                    if k > 0 {
                        assert(s[k] == t[k - 1]);
                    }
                }
            },
        }
    }
}

pub proof fn lemma_find_seq(s: Seq<char>, p: Seq<char>)
    ensures
        find_seq(s, p) matches Some(i) ==> i + p.len() <= s.len() && s.subrange(i as int, (i + p.len()) as int) == p,
    decreases s.len(),
{
    if s.len() >= p.len() && s.take(p.len() as int) != p && s.len() > 0 {
        let t = s.drop_first();
        lemma_find_seq(t, p);
        if let Some(i) = find_seq(t, p) {
            assert(s.subrange((i + 1) as int, (i + 1 + p.len()) as int) =~= t.subrange(i as int, (i + p.len()) as int));
        }
    }
}

/// Code point of the ASCII lower case of a character.
pub open spec fn ascii_lower(c: char) -> int {
    if 'A' <= c && c <= 'Z' {
        (c as u32) + 32
    } else {
        c as u32 as int
    }
}

/// `str::eq_ignore_ascii_case`.
pub open spec fn eq_ignore_ascii_case(a: Seq<char>, b: Seq<char>) -> bool {
    a.len() == b.len() && forall|i: int| 0 <= i < a.len() ==> ascii_lower(#[trigger] a[i]) == ascii_lower(b[i])
}

/// A tag name against a local name, without its namespace prefix and
/// ignoring ASCII case (`d:href`, `D:HREF` and `href` are `href`).
pub open spec fn xml_name_matches_spec(tag_name: Seq<char>, local: Seq<char>) -> bool {
    let l = match last_index_of(tag_name, ':') {
        Some(i) => tag_name.skip(i + 1),
        None => tag_name,
    };
    eq_ignore_ascii_case(l, local)
}

/// The name of an opening tag: its first word, trailing `/` removed.
pub open spec fn tag_name_of(tag: Seq<char>) -> Seq<char> {
    match ws_token(trim_end_slashes(tag), 0) {
        Some(t) => t,
        None => seq![],
    }
}

/// Reads the text of an element up to its closing tag: whether the closing
/// tag was found, the text (CDATA unwrapped, other nested tags dropped) and
/// how many characters were consumed.
pub open spec fn scan_text(cur: Seq<char>, local: Seq<char>) -> (bool, Seq<char>, nat)
    decreases cur.len(),
{
    match first_index_of(cur, '<') {
        None => (false, seq![], 0),
        Some(lt) => {
            proof {
                lemma_first_index_of(cur, '<');
            }
            let before = cur.take(lt as int);
            let c2 = cur.skip((lt + 1) as int);
            if has_prefix(c2, "![CDATA["@) {
                let cd = c2.skip(8);
                match find_seq(cd, "]]>"@) {
                    None => (false, before, lt + 1),
                    Some(end) => {
                        proof {
                            reveal_strlit("![CDATA[");
                            reveal_strlit("]]>");
                            lemma_find_seq(cd, "]]>"@);
                        }
                        let (f, t, n) = scan_text(cd.skip((end + 3) as int), local);
                        (f, before + cd.take(end as int) + t, lt + 1 + 8 + end + 3 + n)
                    },
                }
            } else {
                match first_index_of(c2, '>') {
                    None => (false, before, lt + 1),
                    Some(ce) => {
                        proof {
                            lemma_first_index_of(c2, '>');
                        }
                        let close = c2.take(ce as int);
                        if close.len() > 0 && close[0] == '/' && xml_name_matches_spec(trim(close.skip(1)), local) {
                            (true, before, lt + 1 + ce + 1)
                        } else {
                            let (f, t, n) = scan_text(c2.skip((ce + 1) as int), local);
                            (f, before + t, lt + 1 + ce + 1 + n)
                        }
                    },
                }
            }
        },
    }
}

pub proof fn lemma_scan_text_len(cur: Seq<char>, local: Seq<char>)
    ensures
        scan_text(cur, local).2 <= cur.len(),
    decreases cur.len(),
{
    lemma_first_index_of(cur, '<');
    if let Some(lt) = first_index_of(cur, '<') {
        let c2 = cur.skip((lt + 1) as int);
        reveal_strlit("![CDATA[");
        reveal_strlit("]]>");
        if has_prefix(c2, "![CDATA["@) {
            let cd = c2.skip(8);
            lemma_find_seq(cd, "]]>"@);
            if let Some(end) = find_seq(cd, "]]>"@) {
                lemma_scan_text_len(cd.skip((end + 3) as int), local);
            }
        } else {
            lemma_first_index_of(c2, '>');
            if let Some(ce) = first_index_of(c2, '>') {
                lemma_scan_text_len(c2.skip((ce + 1) as int), local);
            }
        }
    }
}

/// The texts of the elements named `local` (any prefix, any case) in `xml`,
/// in order; a self-closing element counts as empty, an element whose
/// closing tag is missing is dropped.
pub open spec fn element_texts(xml: Seq<char>, local: Seq<char>) -> Seq<Seq<char>>
    decreases xml.len(),
{
    match first_index_of(xml, '<') {
        None => seq![],
        Some(start) => {
            proof {
                lemma_first_index_of(xml, '<');
            }
            let r1 = xml.skip((start + 1) as int);
            match first_index_of(r1, '>') {
                None => seq![],
                Some(te) => {
                    proof {
                        lemma_first_index_of(r1, '>');
                    }
                    let tag = r1.take(te as int);
                    let r2 = r1.skip((te + 1) as int);
                    if tag.len() > 0 && (tag[0] == '/' || tag[0] == '!' || tag[0] == '?') {
                        element_texts(r2, local)
                    } else if !xml_name_matches_spec(tag_name_of(tag), local) {
                        element_texts(r2, local)
                    } else if tag.len() > 0 && tag.last() == '/' {
                        seq![seq![]] + element_texts(r2, local)
                    } else {
                        proof {
                            lemma_scan_text_len(r2, local);
                        }
                        let (f, t, n) = scan_text(r2, local);
                        (if f {
                            seq![t]
                        } else {
                            seq![]
                        }) + element_texts(r2.skip(n as int), local)
                    }
                },
            }
        },
    }
}

// ─── Execution ───────────────────────────────────────────────────────────────

fn push_vec(out: &mut Vec<char>, b: &Vec<char>)
    ensures
        final(out)@ == old(out)@ + b@,
{
    let mut i: usize = 0;
    while i < b.len()
        invariant
            i <= b@.len(),
            out@ == old(out)@ + b@.take(i as int),
        decreases b.len() - i,
    {
        out.push(b[i]);
        i += 1;
        assert(out@ =~= old(out)@ + b@.take(i as int));
    }
    assert(b@.take(i as int) =~= b@);
}

fn first_index_from(s: &Vec<char>, c: char, from: usize) -> (r: Option<usize>)
    requires
        from <= s@.len(),
    ensures
        match first_index_of(s@.skip(from as int), c) {
            Some(i) => r matches Some(j) && j == from + i && j < s@.len(),
            None => r is None,
        },
{
    proof {
        lemma_first_index_of(s@.skip(from as int), c);
    }
    let mut i = from;
    while i < s.len()
        invariant
            from <= i <= s@.len(),
            forall|k: int| from <= k < i ==> s@[k] != c,
        decreases s.len() - i,
    {
        if s[i] == c {
            proof {
                let t = s@.skip(from as int);
                lemma_first_index_of(t, c);
                assert(t[i - from] == c);
                match first_index_of(t, c) {
                    Some(j) => {
                        assert(t[j as int] == s@[from + j]);
                        assert(j == i - from);
                    },
                    None => {},
                }
            }
            return Some(i);
        }
        i += 1;
    }
    proof {
        let t = s@.skip(from as int);
        if let Some(j) = first_index_of(t, c) {
            assert(t[j as int] == s@[from + j]);
        }
    }
    None
}

fn find_seq_from(s: &Vec<char>, p: &Vec<char>, from: usize) -> (r: Option<usize>)
    requires
        from <= s@.len(),
        p@.len() > 0,
    ensures
        match find_seq(s@.skip(from as int), p@) {
            Some(i) => r matches Some(j) && j == from + i && j + p@.len() <= s@.len(),
            None => r is None,
        },
    decreases s@.len() - from,
{
    proof {
        lemma_find_seq(s@.skip(from as int), p@);
    }
    let ghost t = s@.skip(from as int);
    if s.len() - from < p.len() {
        return None;
    }
    let m = crate::text::matches_at(s, p, from);
    assert(t.take(p@.len() as int) =~= s@.subrange(from as int, from + p@.len()));
    if m {
        return Some(from);
    }
    let r = find_seq_from(s, p, from + 1);
    proof {
        assert(t.drop_first() =~= s@.skip(from + 1));
    }
    r
}

fn local_part(tag_name: &Vec<char>) -> (r: Vec<char>)
    ensures
        r@ == (match last_index_of(tag_name@, ':') {
            Some(i) => tag_name@.skip(i + 1),
            None => tag_name@,
        }),
{
    let mut n = tag_name.len();
    assert(tag_name@.take(n as int) =~= tag_name@);
    while n > 0 && tag_name[n - 1] != ':'
        invariant
            n <= tag_name@.len(),
            last_index_of(tag_name@, ':') == last_index_of(tag_name@.take(n as int), ':'),
        decreases n,
    {
        assert(tag_name@.take(n as int).drop_last() =~= tag_name@.take(n - 1));
        n -= 1;
    }
    proof {
        if n > 0 {
            assert(tag_name@.take(n as int).last() == ':');
            assert(last_index_of(tag_name@, ':') == Some(n - 1));
        } else {
            assert(tag_name@.take(0) =~= Seq::<char>::empty());
            assert(tag_name@.skip(0) =~= tag_name@);
        }
    }
    crate::text::tail(tag_name, n)
}

fn eq_ignore_case(a: &Vec<char>, b: &Vec<char>) -> (r: bool)
    ensures
        r == eq_ignore_ascii_case(a@, b@),
{
    if a.len() != b.len() {
        return false;
    }
    let mut i: usize = 0;
    while i < a.len()
        invariant
            i <= a@.len(),
            a@.len() == b@.len(),
            forall|k: int| 0 <= k < i ==> ascii_lower(#[trigger] a@[k]) == ascii_lower(b@[k]),
        decreases a.len() - i,
    {
        let x = a[i];
        let y = b[i];
        let lx: u32 = if 'A' <= x && x <= 'Z' {
            (x as u32) + 32
        } else {
            x as u32
        };
        let ly: u32 = if 'A' <= y && y <= 'Z' {
            (y as u32) + 32
        } else {
            y as u32
        };
        if lx != ly {
            assert(ascii_lower(a@[i as int]) != ascii_lower(b@[i as int]));
            return false;
        }
        i += 1;
    }
    true
}

fn name_matches(tag_name: &Vec<char>, local: &Vec<char>) -> (r: bool)
    ensures
        r == xml_name_matches_spec(tag_name@, local@),
{
    let l = local_part(tag_name);
    eq_ignore_case(&l, local)
}

fn tag_name_exec(tag: &Vec<char>) -> (r: Vec<char>)
    ensures
        r@ == tag_name_of(tag@),
{
    let mut n = tag.len();
    assert(tag@.take(n as int) =~= tag@);
    while n > 0 && tag[n - 1] == '/'
        invariant
            n <= tag@.len(),
            trim_end_slashes(tag@.take(n as int)) == trim_end_slashes(tag@),
        decreases n,
    {
        assert(tag@.take(n as int).drop_last() =~= tag@.take(n - 1));
        n -= 1;
    }
    let t = crate::text::chars_range(tag, 0, n);
    assert(t@ =~= tag@.take(n as int));
    let words = crate::text::split_ws(&t);
    proof {
        assert(words@.map_values(|v: Vec<char>| v@).len() == words@.len());
    }
    if words.len() > 0 {
        let w = crate::text::chars_range(&words[0], 0, words[0].len());
        proof {
            assert(words@.map_values(|v: Vec<char>| v@)[0] == words@[0]@);
            assert(words@[0]@.subrange(0, words@[0]@.len() as int) =~= words@[0]@);
        }
        w
    } else {
        Vec::new()
    }
}

/// One step of reading an element's text.
enum ScanStep {
    /// The reading ends here: closing tag found or not, the last piece of
    /// text and where the reading stopped.
    Done { found: bool, piece: Vec<char>, next: usize },
    /// A piece of text was read; the reading goes on at `next`.
    More { piece: Vec<char>, next: usize },
}

fn scan_step(s: &Vec<char>, cur: usize, local: &Vec<char>) -> (r: ScanStep)
    requires
        cur <= s@.len(),
    ensures
        ({
            let (f, t, n) = scan_text(s@.skip(cur as int), local@);
            match r {
                ScanStep::Done { found, piece, next } => found == f && (f ==> t == piece@) && n == next - cur
                    && cur <= next <= s@.len(),
                ScanStep::More { piece, next } => cur < next <= s@.len() && ({
                    let (f2, t2, n2) = scan_text(s@.skip(next as int), local@);
                    f == f2 && t == piece@ + t2 && n == (next - cur) + n2
                }),
            }
        }),
{
    let ghost c = s@.skip(cur as int);
    proof {
        lemma_first_index_of(c, '<');
        reveal_strlit("![CDATA[");
        reveal_strlit("]]>");
    }
    let lt = match first_index_from(s, '<', cur) {
        None => {
            return ScanStep::Done { found: false, piece: Vec::new(), next: cur };
        },
        Some(lt) => lt,
    };
    let len = s.len();
    assert(lt < len);
    let before = crate::text::chars_range(s, cur, lt);
    let c2start = lt + 1;
    assert(before@ =~= c.take(lt - cur));
    assert(s@.skip(c2start as int) =~= c.skip(lt - cur + 1));
    let cdata: Vec<char> = chars_of("![CDATA[");
    let is_cdata = crate::text::matches_at(s, &cdata, c2start);
    proof {
        let c2 = s@.skip(c2start as int);
        assert(cdata@.len() == 8);
        if c2start + 8 <= s@.len() {
            assert(c2.take(8) =~= s@.subrange(c2start as int, c2start + 8));
        }
        assert(has_prefix(c2, "![CDATA["@) == is_cdata);
    }
    if is_cdata {
        let cdstart = c2start + 8;
        assert(s@.skip(cdstart as int) =~= s@.skip(c2start as int).skip(8));
        let close_cd: Vec<char> = chars_of("]]>");
        match find_seq_from(s, &close_cd, cdstart) {
            None => ScanStep::Done { found: false, piece: before, next: c2start },
            Some(end) => {
                let inner = crate::text::chars_range(s, cdstart, end);
                assert(inner@ =~= s@.skip(cdstart as int).take(end - cdstart));
                assert(s@.skip(end + 3) =~= s@.skip(cdstart as int).skip(end - cdstart + 3));
                let mut piece = before;
                push_vec(&mut piece, &inner);
                proof {
                    let (f2, t2, n2) = scan_text(s@.skip(end + 3), local@);
                    assert(piece@ + t2 =~= c.take(lt - cur) + s@.skip(cdstart as int).take(end - cdstart) + t2);
                }
                ScanStep::More { piece, next: end + 3 }
            },
        }
    } else {
        match first_index_from(s, '>', c2start) {
            None => ScanStep::Done { found: false, piece: before, next: c2start },
            Some(ce) => {
                assert(ce < len);
                let close = crate::text::chars_range(s, c2start, ce);
                assert(close@ =~= s@.skip(c2start as int).take(ce - c2start));
                assert(s@.skip(ce + 1) =~= s@.skip(c2start as int).skip(ce - c2start + 1));
                let mut closes = false;
                if close.len() > 0 && close[0] == '/' {
                    let nm = crate::text::trim_chars(&crate::text::tail(&close, 1));
                    closes = name_matches(&nm, local);
                }
                if closes {
                    ScanStep::Done { found: true, piece: before, next: ce + 1 }
                } else {
                    ScanStep::More { piece: before, next: ce + 1 }
                }
            },
        }
    }
}

/// The text of an element from `from`: found, text, end of what was read.
fn scan_text_exec(s: &Vec<char>, from: usize, local: &Vec<char>) -> (r: (bool, Vec<char>, usize))
    requires
        from <= s@.len(),
    ensures
        ({
            let (f, t, n) = scan_text(s@.skip(from as int), local@);
            r.0 == f && (f ==> r.1@ == t) && r.2 == from + n
        }),
{
    let mut text: Vec<char> = Vec::new();
    let mut cur = from;
    let ghost total = scan_text(s@.skip(from as int), local@);
    loop
        invariant
            from <= cur <= s@.len(),
            total == scan_text(s@.skip(from as int), local@),
            ({
                let (f, t, n) = scan_text(s@.skip(cur as int), local@);
                total.0 == f && (f ==> total.1 == text@ + t) && total.2 == (cur - from) + n
            }),
        decreases s@.len() - cur,
    {
        match scan_step(s, cur, local) {
            ScanStep::Done { found, piece, next } => {
                let ghost old_text = text@;
                push_vec(&mut text, &piece);
                return (found, text, next);
            },
            ScanStep::More { piece, next } => {
                let ghost old_text = text@;
                push_vec(&mut text, &piece);
                proof {
                    let (f2, t2, n2) = scan_text(s@.skip(next as int), local@);
                    assert(old_text + (piece@ + t2) =~= text@ + t2);
                }
                cur = next;
            },
        }
    }
}

/// One element of the reading: `None` when no tag is left; else the text
/// it adds, if any, and where the reading goes on.
fn element_step(s: &Vec<char>, pos: usize, local: &Vec<char>) -> (r: Option<(Option<Vec<char>>, usize)>)
    requires
        pos <= s@.len(),
    ensures
        match r {
            None => element_texts(s@.skip(pos as int), local@) == Seq::<Seq<char>>::empty(),
            Some((t, next)) => pos < next <= s@.len() && element_texts(s@.skip(pos as int), local@) == (
            match t {
                Some(v) => seq![v@],
                None => Seq::<Seq<char>>::empty(),
            }) + element_texts(s@.skip(next as int), local@),
        },
{
    let ghost rest = s@.skip(pos as int);
    proof {
        lemma_first_index_of(rest, '<');
    }
    let start = match first_index_from(s, '<', pos) {
        None => {
            return None;
        },
        Some(i) => i,
    };
    let len = s.len();
    assert(start < len);
    let r1 = start + 1;
    proof {
        assert(s@.skip(r1 as int) =~= rest.skip(start - pos + 1));
        lemma_first_index_of(s@.skip(r1 as int), '>');
    }
    let te = match first_index_from(s, '>', r1) {
        None => {
            return None;
        },
        Some(i) => i,
    };
    assert(te < len);
    let tag = crate::text::chars_range(s, r1, te);
    let r2 = te + 1;
    assert(tag@ =~= s@.skip(r1 as int).take(te - r1));
    assert(s@.skip(r2 as int) =~= s@.skip(r1 as int).skip(te - r1 + 1));
    if tag.len() > 0 && (tag[0] == '/' || tag[0] == '!' || tag[0] == '?') {
        assert(Seq::<Seq<char>>::empty() + element_texts(s@.skip(r2 as int), local@) =~= element_texts(s@.skip(r2 as int), local@));
        return Some((None, r2));
    }
    let name = tag_name_exec(&tag);
    if !name_matches(&name, local) {
        assert(Seq::<Seq<char>>::empty() + element_texts(s@.skip(r2 as int), local@) =~= element_texts(s@.skip(r2 as int), local@));
        return Some((None, r2));
    }
    if tag.len() > 0 && tag[tag.len() - 1] == '/' {
        let e: Vec<char> = Vec::new();
        assert(e@ =~= Seq::<char>::empty());
        return Some((Some(e), r2));
    }
    proof {
        lemma_scan_text_len(s@.skip(r2 as int), local@);
    }
    let (found, text, next) = scan_text_exec(s, r2, local);
    proof {
        let (f, t, n) = scan_text(s@.skip(r2 as int), local@);
        assert(s@.skip(next as int) =~= s@.skip(r2 as int).skip(n as int));
        if !found {
            assert(Seq::<Seq<char>>::empty() + element_texts(s@.skip(next as int), local@) =~= element_texts(s@.skip(next as int), local@));
        }
    }
    if found {
        Some((Some(text), next))
    } else {
        Some((None, next))
    }
}

/// The texts of every element named `local_name` in `xml`.
pub fn xml_element_texts(xml: &str, local_name: &str) -> (r: Vec<String>)
    ensures
        r@.map_values(|v: String| v@) == element_texts(xml@, local_name@),
{
    let s = chars_of(xml);
    let local = chars_of(local_name);
    let mut out: Vec<String> = Vec::new();
    let mut pos: usize = 0;
    assert(s@.skip(0) =~= s@);
    loop
        invariant
            pos <= s@.len(),
            s@ == xml@,
            local@ == local_name@,
            out@.map_values(|v: String| v@) + element_texts(s@.skip(pos as int), local@) == element_texts(s@, local@),
        decreases s@.len() - pos,
    {
        let ghost before = out@.map_values(|v: String| v@);
        match element_step(&s, pos, &local) {
            None => {
                assert(before + Seq::<Seq<char>>::empty() =~= before);
                return out;
            },
            Some((t, next)) => {
                match t {
                    Some(v) => {
                        out.push(string_of(&v));
                        assert(out@.map_values(|v: String| v@) =~= before.push(v@));
                        assert(before.push(v@) + element_texts(s@.skip(next as int), local@) =~= before + (seq![v@]
                            + element_texts(s@.skip(next as int), local@)));
                    },
                    None => {
                        assert(before + (Seq::<Seq<char>>::empty() + element_texts(s@.skip(next as int), local@))
                            =~= before + element_texts(s@.skip(next as int), local@));
                    },
                }
                pos = next;
            },
        }
    }
}

// ─── Snapshot names ──────────────────────────────────────────────────────────

/// Prefix of the snapshot file names of the history.
pub const SNAPSHOT_PREFIX: &'static str = "rustty-sync-";

/// Extension of the snapshot file names.
pub const SNAPSHOT_EXT: &'static str = ".bin";

/// The last non-empty `/` segment of a path.
pub open spec fn last_segment(s: Seq<char>) -> Option<Seq<char>> {
    let t = trim_end_slashes(s);
    if t.len() == 0 {
        None
    } else {
        Some(
            match last_index_of(t, '/') {
                Some(i) => t.skip(i + 1),
                None => t,
            },
        )
    }
}

/// The snapshot name an `href` points at, if it points at one.
pub open spec fn snapshot_of_href(href: Seq<char>) -> Option<Seq<char>> {
    match last_segment(trim(href)) {
        Some(raw) => {
            let name = match url_decoded(raw) {
                Some(d) => d,
                None => raw,
            };
            if has_prefix(name, "rustty-sync-"@) && has_suffix(name, ".bin"@) {
                Some(name)
            } else {
                None
            }
        },
        None => None,
    }
}

/// The snapshot names among a list of hrefs, in order.
pub open spec fn snapshot_names(hrefs: Seq<Seq<char>>) -> Seq<Seq<char>>
    decreases hrefs.len(),
{
    if hrefs.len() == 0 {
        seq![]
    } else {
        snapshot_names(hrefs.drop_last()) + match snapshot_of_href(hrefs.last()) {
            Some(n) => seq![n],
            None => seq![],
        }
    }
}

fn snapshot_of_href_exec(href: &String) -> (r: Option<String>)
    ensures
        match r {
            Some(n) => snapshot_of_href(href@) == Some(n@),
            None => snapshot_of_href(href@) is None,
        },
{
    let t = crate::text::trim_chars(&chars_of(href.as_str()));
    let mut n = t.len();
    assert(t@.take(n as int) =~= t@);
    while n > 0 && t[n - 1] == '/'
        invariant
            n <= t@.len(),
            trim_end_slashes(t@.take(n as int)) == trim_end_slashes(t@),
        decreases n,
    {
        assert(t@.take(n as int).drop_last() =~= t@.take(n - 1));
        n -= 1;
    }
    let u = crate::text::chars_range(&t, 0, n);
    proof {
        assert(u@ =~= t@.take(n as int));
        assert(trim_end_slashes(u@) == u@) by {
            if u@.len() > 0 {
                assert(u@.last() == t@[n - 1]);
            }
        }
    }
    if u.len() == 0 {
        return None;
    }
    let mut k = u.len();
    assert(u@.take(k as int) =~= u@);
    while k > 0 && u[k - 1] != '/'
        invariant
            k <= u@.len(),
            last_index_of(u@, '/') == last_index_of(u@.take(k as int), '/'),
        decreases k,
    {
        assert(u@.take(k as int).drop_last() =~= u@.take(k - 1));
        k -= 1;
    }
    let raw = crate::text::tail(&u, k);
    proof {
        if k > 0 {
            assert(u@.take(k as int).last() == '/');
        } else {
            assert(u@.skip(0) =~= u@);
        }
    }
    let raw_s = string_of(&raw);
    let name = match url_decode(raw_s.as_str()) {
        Some(d) => d,
        None => raw_s,
    };
    let nc = chars_of(name.as_str());
    let pre = chars_of("rustty-sync-");
    let ext = chars_of(".bin");
    if crate::text::starts_with(&nc, &pre) && crate::text::ends_with(&nc, &ext) {
        Some(name)
    } else {
        None
    }
}

/// The snapshot file names a `PROPFIND` answer lists (`rustty-sync-*.bin`,
/// percent-decoded), in order.
pub fn webdav_history_filenames(body: &str) -> (r: Vec<String>)
    ensures
        r@.map_values(|v: String| v@) == snapshot_names(element_texts(body@, "href"@)),
{
    let hrefs = xml_element_texts(body, "href");
    let ghost hv = hrefs@.map_values(|v: String| v@);
    let mut out: Vec<String> = Vec::new();
    let mut i: usize = 0;
    while i < hrefs.len()
        invariant
            i <= hrefs@.len(),
            hv == hrefs@.map_values(|v: String| v@),
            out@.map_values(|v: String| v@) == snapshot_names(hv.take(i as int)),
        decreases hrefs.len() - i,
    {
        let ghost before = out@.map_values(|v: String| v@);
        proof {
            assert(hv.take(i + 1).drop_last() =~= hv.take(i as int));
            assert(hv.take(i + 1).last() == hrefs@[i as int]@);
        }
        match snapshot_of_href_exec(&hrefs[i]) {
            Some(n) => {
                out.push(n);
                assert(out@.map_values(|v: String| v@) =~= before + seq![snapshot_of_href(hrefs@[i as int]@).unwrap()]);
            },
            None => {
                assert(before + Seq::<Seq<char>>::empty() =~= before);
            },
        }
        i += 1;
    }
    assert(hv.take(i as int) =~= hv);
    out
}

} // verus!
