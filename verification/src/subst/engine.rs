//! The substitution engine: the `${...}` parser and the application of a
//! `Resolver`.
//!
//! Grammar: the escape `$${...}` gives the literal `${...}`; an unknown,
//! malformed or unclosed marker stays literal; a body is read up to the
//! first `}` (no nesting); substitution is a **single pass** (the result is
//! not scanned again, for safety).
use vstd::prelude::*;
use crate::subst::types::{
    internal_name, internal_of, markers_view, strings_view, InternalVar, Marker, MarkerV, Resolver,
};
use crate::text::{
    chars_of, eq_lit, is_alnum_char, is_alpha_char, is_ascii_alnum, is_ascii_alpha, push_chars,
    push_str, split_once, split_once_chars, string_of,
};

verus! {

// ─── Grammar ─────────────────────────────────────────────────────────────────

/// Distance from `k` to the first `}` at or after it.
pub open spec fn close_from(s: Seq<char>, k: int) -> Option<nat>
    decreases s.len() - k,
{
    if k < 0 || k >= s.len() {
        None
    } else if s[k] == '}' {
        Some(0)
    } else {
        match close_from(s, k + 1) {
            Some(d) => Some(d + 1),
            None => None,
        }
    }
}

/// A `var`/`secret`/`master` name: a letter or `_`, then letters, digits,
/// `_`, `-` or `.`.
pub open spec fn valid_name(s: Seq<char>) -> bool {
    &&& s.len() > 0
    &&& (is_ascii_alpha(s[0]) || s[0] == '_')
    &&& forall|i: int|
        1 <= i < s.len() ==> is_ascii_alnum(#[trigger] s[i]) || s[i] == '_' || s[i] == '-' || s[i] == '.'
}

/// An environment variable name: a letter or `_`, then letters, digits or
/// `_`.
pub open spec fn valid_env_name(s: Seq<char>) -> bool {
    &&& s.len() > 0
    &&& (is_ascii_alpha(s[0]) || s[0] == '_')
    &&& forall|i: int| 1 <= i < s.len() ==> is_ascii_alnum(#[trigger] s[i]) || s[i] == '_'
}

/// `str::split` on a character: the pieces between separators, empty ones
/// included.
pub open spec fn split_on(s: Seq<char>, c: char) -> Seq<Seq<char>>
    decreases s.len(),
{
    if s.len() == 0 {
        seq![seq![]]
    } else {
        let parts = split_on(s.drop_last(), c);
        if s.last() == c {
            parts.push(seq![])
        } else {
            parts.update(parts.len() - 1, parts.last().push(s.last()))
        }
    }
}

/// The marker a body `${body}` stands for, if it is a known one.
pub open spec fn body_marker(body: Seq<char>) -> Option<MarkerV> {
    match internal_of(body) {
        Some(v) => Some(MarkerV::Internal(v)),
        None => match split_once(body, seq![':']) {
            None => None,
            Some((prefix, rest)) => if prefix == "env"@ {
                if valid_env_name(rest) {
                    Some(MarkerV::Env(rest))
                } else {
                    None
                }
            } else if prefix == "var"@ {
                if valid_name(rest) {
                    Some(MarkerV::Var(rest))
                } else {
                    None
                }
            } else if prefix == "secret"@ {
                if valid_name(rest) {
                    Some(MarkerV::Secret(rest))
                } else {
                    None
                }
            } else if prefix == "master"@ {
                if valid_name(rest) {
                    Some(MarkerV::Master(rest))
                } else {
                    None
                }
            } else if prefix == "ask"@ {
                let parts = split_on(rest, '|');
                if parts[0].len() == 0 {
                    None
                } else {
                    Some(MarkerV::Ask { label: parts[0], options: parts.drop_first() })
                }
            } else if prefix == "cmd"@ {
                if rest.len() > 0 {
                    Some(MarkerV::Cmd(rest))
                } else {
                    None
                }
            } else {
                None
            },
        },
    }
}

/// Prepends literal text, merging it with a literal that comes first.
pub open spec fn cons_lit(l: Seq<char>, ms: Seq<MarkerV>) -> Seq<MarkerV> {
    if ms.len() > 0 && ms[0] is Literal {
        seq![MarkerV::Literal(l + ms[0]->Literal_0)] + ms.drop_first()
    } else {
        seq![MarkerV::Literal(l)] + ms
    }
}

/// The pieces of the template from position `i` on.
pub open spec fn scan(s: Seq<char>, i: int) -> Seq<MarkerV>
    decreases (if i < s.len() { s.len() - i } else { 0 }),
{
    if i < 0 || i >= s.len() {
        seq![]
    } else if i + 2 < s.len() && s[i] == '$' && s[i + 1] == '$' && s[i + 2] == '{' {
        match close_from(s, i + 3) {
            Some(d) => cons_lit(s.subrange(i + 1, i + 3 + d + 1), scan(s, i + 3 + d + 1)),
            None => cons_lit(seq!['$'], scan(s, i + 1)),
        }
    } else if i + 1 < s.len() && s[i] == '$' && s[i + 1] == '{' {
        match close_from(s, i + 2) {
            Some(d) => match body_marker(s.subrange(i + 2, i + 2 + d)) {
                Some(m) => seq![m] + scan(s, i + 2 + d + 1),
                None => cons_lit(s.subrange(i, i + 2 + d + 1), scan(s, i + 2 + d + 1)),
            },
            None => seq![MarkerV::Literal(s.skip(i))],
        }
    } else {
        cons_lit(seq![s[i]], scan(s, i + 1))
    }
}

/// `parse` on the model: the pieces of the whole template, adjacent
/// literals merged.
pub open spec fn parse_spec(s: Seq<char>) -> Seq<MarkerV> {
    scan(s, 0)
}

/// Pending literal text before the pieces that follow it.
pub open spec fn lit_cons(l: Seq<char>, ms: Seq<MarkerV>) -> Seq<MarkerV> {
    if l.len() == 0 {
        ms
    } else {
        cons_lit(l, ms)
    }
}

// ─── Rendering ───────────────────────────────────────────────────────────────

/// `a|b|c` of a list of strings.
pub open spec fn join_bar(v: Seq<Seq<char>>) -> Seq<char>
    decreases v.len(),
{
    if v.len() == 0 {
        seq![]
    } else if v.len() == 1 {
        v[0]
    } else {
        join_bar(v.drop_last()) + "|"@ + v.last()
    }
}

/// The original text of a marker that was not resolved.
pub open spec fn render_literal_spec(m: MarkerV) -> Seq<char> {
    match m {
        MarkerV::Literal(t) => t,
        MarkerV::Internal(v) => "${"@ + internal_name(v) + "}"@,
        MarkerV::Env(n) => "${env:"@ + n + "}"@,
        MarkerV::Var(n) => "${var:"@ + n + "}"@,
        MarkerV::Secret(n) => "${secret:"@ + n + "}"@,
        MarkerV::Master(n) => "${master:"@ + n + "}"@,
        MarkerV::Ask { label, options } => if options.len() == 0 {
            "${ask:"@ + label + "}"@
        } else {
            "${ask:"@ + label + "|"@ + join_bar(options) + "}"@
        },
        MarkerV::Cmd(c) => "${cmd:"@ + c + "}"@,
    }
}

/// What one piece becomes: literals stay, a resolved marker becomes its
/// value verbatim, an unresolved one its original text.
pub open spec fn piece_text(m: MarkerV, answer: Option<Seq<char>>) -> Seq<char> {
    if m is Literal {
        m->Literal_0
    } else {
        match answer {
            Some(v) => v,
            None => render_literal_spec(m),
        }
    }
}

/// The output of a template given the resolver's answer for each piece.
pub open spec fn render_spec(ms: Seq<MarkerV>, answers: Seq<Option<Seq<char>>>) -> Seq<char>
    decreases ms.len(),
{
    if ms.len() == 0 {
        seq![]
    } else {
        render_spec(ms.drop_last(), answers.drop_last()) + piece_text(ms.last(), answers.last())
    }
}

pub open spec fn answers_view(v: Seq<Option<String>>) -> Seq<Option<Seq<char>>> {
    v.map_values(
        |a: Option<String>|
            match a {
                Some(s) => Some(s@),
                None => None,
            },
    )
}

// ─── Lemmas ──────────────────────────────────────────────────────────────────

proof fn lemma_lit_cons_append(l: Seq<char>, p: Seq<char>, ms: Seq<MarkerV>)
    requires
        p.len() > 0,
    ensures
        lit_cons(l, cons_lit(p, ms)) == lit_cons(l + p, ms),
{
    if l.len() > 0 {
        let c = cons_lit(p, ms);
        if ms.len() > 0 && ms[0] is Literal {
            assert(c[0] == MarkerV::Literal(p + ms[0]->Literal_0));
            assert(c.drop_first() =~= ms.drop_first());
            assert(l + (p + ms[0]->Literal_0) =~= (l + p) + ms[0]->Literal_0);
        } else {
            assert(c[0] == MarkerV::Literal(p));
            assert(c.drop_first() =~= ms);
        }
    } else {
        assert(l + p =~= p);
    }
}

pub open spec fn flushed(l: Seq<char>) -> Seq<MarkerV> {
    if l.len() > 0 {
        seq![MarkerV::Literal(l)]
    } else {
        seq![]
    }
}

proof fn lemma_lit_cons_marker(l: Seq<char>, m: MarkerV, ms: Seq<MarkerV>)
    requires
        !(m is Literal),
    ensures
        lit_cons(l, seq![m] + ms) == flushed(l) + seq![m] + ms,
{
    if l.len() > 0 {
        assert((seq![m] + ms)[0] == m);
        assert(lit_cons(l, seq![m] + ms) =~= flushed(l) + seq![m] + ms);
    } else {
        assert(flushed(l) + seq![m] + ms =~= seq![m] + ms);
    }
}

proof fn lemma_split_on_nonempty(s: Seq<char>, c: char)
    ensures
        split_on(s, c).len() >= 1,
    decreases s.len(),
{
    if s.len() > 0 {
        lemma_split_on_nonempty(s.drop_last(), c);
    }
}

// ─── Executable grammar ──────────────────────────────────────────────────────

/// Index of the first `}` at or after `k`.
fn find_close(s: &Vec<char>, k: usize) -> (r: Option<usize>)
    requires
        k <= s.len(),
    ensures
        match r {
            Some(j) => close_from(s@, k as int) == Some((j - k) as nat) && k <= j < s@.len(),
            None => close_from(s@, k as int) is None,
        },
{
    let mut j = k;
    while j < s.len() && s[j] != '}'
        invariant
            k <= j <= s@.len(),
            close_from(s@, k as int) == (match close_from(s@, j as int) {
                Some(d) => Some((d + (j - k)) as nat),
                None => None::<nat>,
            }),
        decreases s.len() - j,
    {
        j += 1;
    }
    if j < s.len() {
        Some(j)
    } else {
        None
    }
}

fn is_valid_name(name: &Vec<char>) -> (r: bool)
    ensures
        r == valid_name(name@),
{
    if name.len() == 0 {
        return false;
    }
    let c0 = name[0];
    if !(is_alpha_char(c0) || c0 == '_') {
        return false;
    }
    let mut i: usize = 1;
    while i < name.len()
        invariant
            1 <= i <= name@.len(),
            forall|k: int| 1 <= k < i ==> is_ascii_alnum(#[trigger] name@[k]) || name@[k] == '_' || name@[k] == '-'
                || name@[k] == '.',
        decreases name.len() - i,
    {
        let c = name[i];
        if !(is_alnum_char(c) || c == '_' || c == '-' || c == '.') {
            return false;
        }
        i += 1;
    }
    true
}

fn is_valid_env_name(name: &Vec<char>) -> (r: bool)
    ensures
        r == valid_env_name(name@),
{
    if name.len() == 0 {
        return false;
    }
    let c0 = name[0];
    if !(is_alpha_char(c0) || c0 == '_') {
        return false;
    }
    let mut i: usize = 1;
    while i < name.len()
        invariant
            1 <= i <= name@.len(),
            forall|k: int| 1 <= k < i ==> is_ascii_alnum(#[trigger] name@[k]) || name@[k] == '_',
        decreases name.len() - i,
    {
        let c = name[i];
        if !(is_alnum_char(c) || c == '_') {
            return false;
        }
        i += 1;
    }
    true
}

pub open spec fn char_vecs_view(v: Seq<Vec<char>>) -> Seq<Seq<char>> {
    v.map_values(|x: Vec<char>| x@)
}

/// `str::split('|')`.
fn split_bar(s: &Vec<char>) -> (r: Vec<Vec<char>>)
    ensures
        char_vecs_view(r@) == split_on(s@, '|'),
        r@.len() >= 1,
{
    let mut parts: Vec<Vec<char>> = Vec::new();
    let mut cur: Vec<char> = Vec::new();
    let mut i: usize = 0;
    assert(s@.take(0) =~= Seq::<char>::empty());
    while i < s.len()
        invariant
            i <= s@.len(),
            char_vecs_view(parts@).push(cur@) == split_on(s@.take(i as int), '|'),
        decreases s.len() - i,
    {
        let c = s[i];
        let ghost t = s@.take(i + 1);
        assert(t.drop_last() =~= s@.take(i as int));
        assert(t.last() == c);
        let ghost prev = split_on(s@.take(i as int), '|');
        if c == '|' {
            let ghost pv = char_vecs_view(parts@);
            let done = cur;
            parts.push(done);
            cur = Vec::new();
            proof {
                assert(char_vecs_view(parts@) =~= pv.push(done@));
                assert(char_vecs_view(parts@).push(cur@) =~= prev.push(seq![]));
            }
        } else {
            let ghost pv = char_vecs_view(parts@);
            cur.push(c);
            proof {
                assert(pv.push(cur@) =~= prev.update(prev.len() - 1, prev.last().push(c)));
            }
        }
        i += 1;
    }
    assert(s@.take(s@.len() as int) =~= s@);
    let ghost pv = char_vecs_view(parts@);
    parts.push(cur);
    assert(char_vecs_view(parts@) =~= pv.push(cur@));
    parts
}

/// The marker of a body `${body}`, if it is a known one.
fn parse_body(body: &Vec<char>) -> (r: Option<Marker>)
    ensures
        match r {
            Some(m) => body_marker(body@) == Some(m@),
            None => body_marker(body@) is None,
        },
{
    let text = string_of(body);
    if let Some(v) = InternalVar::from_name(text.as_str()) {
        return Some(Marker::Internal(v));
    }
    let colon: Vec<char> = vec![':'];
    assert(colon@ =~= seq![':']);
    let (prefix, rest) = match split_once_chars(body, &colon) {
        None => return None,
        Some(t) => t,
    };
    if eq_lit(&prefix, "env") {
        if is_valid_env_name(&rest) {
            Some(Marker::Env(string_of(&rest)))
        } else {
            None
        }
    } else if eq_lit(&prefix, "var") {
        if is_valid_name(&rest) {
            Some(Marker::Var(string_of(&rest)))
        } else {
            None
        }
    } else if eq_lit(&prefix, "secret") {
        if is_valid_name(&rest) {
            Some(Marker::Secret(string_of(&rest)))
        } else {
            None
        }
    } else if eq_lit(&prefix, "master") {
        if is_valid_name(&rest) {
            Some(Marker::Master(string_of(&rest)))
        } else {
            None
        }
    } else if eq_lit(&prefix, "ask") {
        let parts = split_bar(&rest);
        assert(char_vecs_view(parts@)[0] == parts@[0]@);
        if parts[0].len() == 0 {
            return None;
        }
        let label = string_of(&parts[0]);
        let mut options: Vec<String> = Vec::new();
        let mut k: usize = 1;
        while k < parts.len()
            invariant
                1 <= k <= parts@.len(),
                strings_view(options@) == char_vecs_view(parts@).subrange(1, k as int),
            decreases parts.len() - k,
        {
            let ghost ov = strings_view(options@);
            options.push(string_of(&parts[k]));
            proof {
                assert(strings_view(options@) =~= ov.push(parts@[k as int]@));
                assert(char_vecs_view(parts@).subrange(1, k + 1) =~= char_vecs_view(parts@).subrange(1, k as int).push(
                    parts@[k as int]@,
                ));
            }
            k += 1;
        }
        assert(char_vecs_view(parts@).subrange(1, k as int) =~= char_vecs_view(parts@).drop_first());
        Some(Marker::Ask { label, options })
    } else if eq_lit(&prefix, "cmd") {
        if rest.len() > 0 {
            Some(Marker::Cmd(string_of(&rest)))
        } else {
            None
        }
    } else {
        None
    }
}

/// Emits the pending literal, if any, as one piece.
fn flush(literal: &mut Vec<char>, markers: &mut Vec<Marker>)
    ensures
        final(literal)@ == Seq::<char>::empty(),
        markers_view(final(markers)@) == markers_view(old(markers)@) + flushed(old(literal)@),
{
    if literal.len() > 0 {
        let ghost mv = markers_view(markers@);
        let text = string_of(literal);
        markers.push(Marker::Literal(text));
        assert(markers_view(markers@) =~= mv + flushed(old(literal)@));
    } else {
        assert(markers_view(markers@) =~= markers_view(old(markers)@) + flushed(old(literal)@));
    }
    *literal = Vec::new();
}

fn extend_chars(literal: &mut Vec<char>, s: &Vec<char>, lo: usize, hi: usize)
    requires
        lo <= hi <= s@.len(),
    ensures
        final(literal)@ == old(literal)@ + s@.subrange(lo as int, hi as int),
{
    let mut k = lo;
    while k < hi
        invariant
            lo <= k <= hi <= s@.len(),
            literal@ == old(literal)@ + s@.subrange(lo as int, k as int),
        decreases hi - k,
    {
        literal.push(s[k]);
        k += 1;
        assert(literal@ =~= old(literal)@ + s@.subrange(lo as int, k as int));
    }
}

/// Parses a template into markers and literals.
///
/// It never fails: anything unknown or malformed stays a `Marker::Literal`
/// with the original text, and adjacent literals are merged into one.
pub fn parse(template: &str) -> (r: Vec<Marker>)
    ensures
        markers_view(r@) == parse_spec(template@),
{
    let s = chars_of(template);
    let mut markers: Vec<Marker> = Vec::new();
    let mut literal: Vec<char> = Vec::new();
    let len = s.len();
    let mut i: usize = 0;
    assert(markers_view(markers@) =~= Seq::<MarkerV>::empty());
    while i < len
        invariant
            len == s@.len(),
            s@ == template@,
            i <= len,
            parse_spec(s@) == markers_view(markers@) + lit_cons(literal@, scan(s@, i as int)),
        decreases len - i,
    {
        let ghost mv = markers_view(markers@);
        let ghost lv = literal@;
        if s[i] == '$' && len - i > 2 && s[i + 1] == '$' && s[i + 2] == '{' {
            match find_close(&s, i + 3) {
                Some(close) => {
                    extend_chars(&mut literal, &s, i + 1, close + 1);
                    proof {
                        lemma_lit_cons_append(lv, s@.subrange(i + 1, close + 1), scan(s@, close + 1));
                    }
                    i = close + 1;
                },
                None => {
                    literal.push('$');
                    proof {
                        lemma_lit_cons_append(lv, seq!['$'], scan(s@, i + 1));
                        assert(literal@ =~= lv + seq!['$']);
                    }
                    i += 1;
                },
            }
        } else if s[i] == '$' && len - i > 1 && s[i + 1] == '{' {
            match find_close(&s, i + 2) {
                Some(close) => {
                    let body = crate::text::chars_range(&s, i + 2, close);
                    match parse_body(&body) {
                        Some(marker) => {
                            let ghost m = marker@;
                            proof {
                                assert(!(m is Literal));
                                lemma_lit_cons_marker(lv, m, scan(s@, close + 1));
                            }
                            flush(&mut literal, &mut markers);
                            let ghost mv2 = markers_view(markers@);
                            markers.push(marker);
                            proof {
                                assert(markers_view(markers@) =~= mv2.push(m));
                                assert(markers_view(markers@) + lit_cons(literal@, scan(s@, close + 1)) =~= mv + (
                                flushed(lv) + seq![m] + scan(s@, close + 1)));
                            }
                        },
                        None => {
                            extend_chars(&mut literal, &s, i, close + 1);
                            proof {
                                lemma_lit_cons_append(lv, s@.subrange(i as int, close + 1), scan(s@, close + 1));
                            }
                        },
                    }
                    i = close + 1;
                },
                None => {
                    extend_chars(&mut literal, &s, i, len);
                    proof {
                        assert(s@.subrange(i as int, len as int) =~= s@.skip(i as int));
                        assert(scan(s@, len as int) == Seq::<MarkerV>::empty());
                        if lv.len() > 0 {
                            assert(lit_cons(lv, seq![MarkerV::Literal(s@.skip(i as int))]) =~= seq![
                                MarkerV::Literal(lv + s@.skip(i as int)),
                            ]);
                        }
                    }
                    i = len;
                },
            }
        } else {
            literal.push(s[i]);
            proof {
                lemma_lit_cons_append(lv, seq![s@[i as int]], scan(s@, i + 1));
                assert(literal@ =~= lv + seq![s@[i as int]]);
            }
            i += 1;
        }
    }
    let ghost mv = markers_view(markers@);
    let ghost lv = literal@;
    flush(&mut literal, &mut markers);
    proof {
        if lv.len() > 0 {
            assert(lit_cons(lv, Seq::<MarkerV>::empty()) =~= flushed(lv));
        }
        assert(mv + lit_cons(lv, Seq::<MarkerV>::empty()) =~= markers_view(markers@));
    }
    markers
}

fn internal_name_str(v: InternalVar) -> (r: &'static str)
    ensures
        r@ == internal_name(v),
{
    match v {
        InternalVar::Host => "host",
        InternalVar::Port => "port",
        InternalVar::User => "user",
        InternalVar::ProfileName => "profileName",
        InternalVar::Workspace => "workspace",
        InternalVar::Date => "date",
        InternalVar::Time => "time",
    }
}

fn wrapped(head: &str, body: &str) -> (r: String)
    ensures
        r@ == head@ + body@ + "}"@,
{
    let mut out = String::new();
    push_str(&mut out, head);
    push_str(&mut out, body);
    push_str(&mut out, "}");
    assert(out@ =~= head@ + body@ + "}"@);
    out
}

/// The original text of a marker that was not resolved.
fn render_literal(marker: &Marker) -> (r: String)
    ensures
        r@ == render_literal_spec(marker@),
{
    match marker {
        Marker::Literal(text) => text.clone(),
        Marker::Internal(v) => wrapped("${", internal_name_str(*v)),
        Marker::Env(n) => wrapped("${env:", n.as_str()),
        Marker::Var(n) => wrapped("${var:", n.as_str()),
        Marker::Secret(n) => wrapped("${secret:", n.as_str()),
        Marker::Master(n) => wrapped("${master:", n.as_str()),
        Marker::Ask { label, options } => {
            let mut out = String::new();
            push_str(&mut out, "${ask:");
            push_str(&mut out, label.as_str());
            if options.len() > 0 {
                push_str(&mut out, "|");
                let ghost ov = strings_view(options@);
                let ghost head = out@;
                let mut k: usize = 0;
                while k < options.len()
                    invariant
                        k <= options@.len(),
                        options@.len() > 0,
                        ov == strings_view(options@),
                        out@ == head + join_bar(ov.take(k as int)),
                    decreases options.len() - k,
                {
                    let ghost before = out@;
                    if k > 0 {
                        push_str(&mut out, "|");
                    }
                    push_str(&mut out, options[k].as_str());
                    proof {
                        let t = ov.take(k + 1);
                        assert(t.drop_last() =~= ov.take(k as int));
                        assert(t.last() == options@[k as int]@);
                        if k == 0 {
                            assert(join_bar(ov.take(0)) =~= Seq::<char>::empty());
                            assert(t.len() == 1);
                            assert(out@ =~= head + join_bar(t));
                        } else {
                            assert(out@ =~= head + join_bar(t));
                        }
                    }
                    k += 1;
                }
                assert(ov.take(k as int) =~= ov);
            }
            push_str(&mut out, "}");
            assert(out@ =~= render_literal_spec(marker@));
            out
        },
        Marker::Cmd(c) => wrapped("${cmd:", c.as_str()),
    }
}

/// Renders parsed markers given the resolver's answer for each of them
/// (`answers[i]` for `markers[i]`; ignored for literals). A value is copied
/// verbatim: it is never scanned again for markers.
pub fn render_markers(markers: &Vec<Marker>, answers: &Vec<Option<String>>) -> (r: String)
    requires
        answers@.len() == markers@.len(),
    ensures
        r@ == render_spec(markers_view(markers@), answers_view(answers@)),
{
    let mut out = String::new();
    let ghost mv = markers_view(markers@);
    let ghost av = answers_view(answers@);
    let mut i: usize = 0;
    assert(out@ =~= render_spec(mv.take(0), av.take(0)));
    while i < markers.len()
        invariant
            i <= markers@.len(),
            answers@.len() == markers@.len(),
            mv == markers_view(markers@),
            av == answers_view(answers@),
            out@ == render_spec(mv.take(i as int), av.take(i as int)),
        decreases markers.len() - i,
    {
        let ghost before = out@;
        match &markers[i] {
            Marker::Literal(text) => push_str(&mut out, text.as_str()),
            other => match &answers[i] {
                Some(v) => push_str(&mut out, v.as_str()),
                None => {
                    let lit = render_literal(other);
                    push_str(&mut out, lit.as_str());
                },
            },
        }
        proof {
            assert(mv.take(i + 1).drop_last() =~= mv.take(i as int));
            assert(av.take(i + 1).drop_last() =~= av.take(i as int));
            assert(mv.take(i + 1).last() == markers@[i as int]@);
            assert(av.take(i + 1).last() == av[i as int]);
            assert(out@ =~= before + piece_text(mv[i as int], av[i as int]));
        }
        i += 1;
    }
    assert(mv.take(i as int) =~= mv);
    assert(av.take(i as int) =~= av);
    out
}

/// `a` is what the resolver's method for `m`'s namespace may give for it:
/// `internal`, `env`, `var`, `secret`, `master`, `ask` (label and options)
/// or `cmd`, called with the marker's own name; a literal asks nothing.
pub open spec fn answered<R: Resolver>(resolver: &R, m: Marker, a: Option<String>) -> bool {
    match m {
        Marker::Literal(_) => a is None,
        Marker::Internal(v) => call_ensures(R::internal, (resolver, v), a),
        Marker::Env(n) => exists|s: &str| #![trigger call_ensures(R::env, (resolver, s), a)]
            s@ == n@ && call_ensures(R::env, (resolver, s), a),
        Marker::Var(n) => exists|s: &str| #![trigger call_ensures(R::var, (resolver, s), a)]
            s@ == n@ && call_ensures(R::var, (resolver, s), a),
        Marker::Secret(n) => exists|s: &str| #![trigger call_ensures(R::secret, (resolver, s), a)]
            s@ == n@ && call_ensures(R::secret, (resolver, s), a),
        Marker::Master(n) => exists|s: &str| #![trigger call_ensures(R::master, (resolver, s), a)]
            s@ == n@ && call_ensures(R::master, (resolver, s), a),
        Marker::Ask { label, options } => exists|s: &str, o: &[String]|
            #![trigger call_ensures(R::ask, (resolver, s, o), a)]
            s@ == label@ && o@ == options@ && call_ensures(R::ask, (resolver, s, o), a),
        Marker::Cmd(c) => exists|s: &str| #![trigger call_ensures(R::cmd, (resolver, s), a)]
            s@ == c@ && call_ensures(R::cmd, (resolver, s), a),
    }
}

/// Applies the resolver to the template in a single pass: each marker of
/// the parsed template gets the answer of the resolver's method for its
/// namespace, called with the marker's name.
///
/// The value of a marker is **not** scanned again. A marker whose resolver
/// method gives `None` stays literal (`${...}`); literals are kept as they
/// are. The body asks the resolver once per marker, in order.
pub fn substitute<R: Resolver>(template: &str, resolver: &R) -> (r: String)
    ensures
        exists|ms: Seq<Marker>, answers: Seq<Option<String>>|
            #![trigger markers_view(ms), answers_view(answers)]
            markers_view(ms) == parse_spec(template@) && answers.len() == ms.len() && (forall|i: int|
                0 <= i < ms.len() ==> answered(resolver, #[trigger] ms[i], answers[i])) && r@ == render_spec(
                parse_spec(template@),
                answers_view(answers),
            ),
{
    let markers = parse(template);
    let mut answers: Vec<Option<String>> = Vec::new();
    let mut i: usize = 0;
    while i < markers.len()
        invariant
            i <= markers@.len(),
            answers@.len() == i,
            forall|k: int| 0 <= k < i ==> answered(resolver, #[trigger] markers@[k], answers@[k]),
        decreases markers.len() - i,
    {
        let a = match &markers[i] {
            Marker::Literal(_) => None,
            Marker::Internal(v) => resolver.internal(*v),
            Marker::Env(n) => {
                let s = n.as_str();
                let a = resolver.env(s);
                assert(s@ == n@ && call_ensures(R::env, (resolver, s), a));
                a
            },
            Marker::Var(n) => {
                let s = n.as_str();
                let a = resolver.var(s);
                assert(s@ == n@ && call_ensures(R::var, (resolver, s), a));
                a
            },
            Marker::Secret(n) => {
                let s = n.as_str();
                let a = resolver.secret(s);
                assert(s@ == n@ && call_ensures(R::secret, (resolver, s), a));
                a
            },
            Marker::Master(n) => {
                let s = n.as_str();
                let a = resolver.master(s);
                assert(s@ == n@ && call_ensures(R::master, (resolver, s), a));
                a
            },
            Marker::Ask { label, options } => {
                let s = label.as_str();
                let o = options.as_slice();
                let a = resolver.ask(s, o);
                assert(s@ == label@ && o@ == options@ && call_ensures(R::ask, (resolver, s, o), a));
                a
            },
            Marker::Cmd(c) => {
                let s = c.as_str();
                let a = resolver.cmd(s);
                assert(s@ == c@ && call_ensures(R::cmd, (resolver, s), a));
                a
            },
        };
        assert(answered(resolver, markers@[i as int], a));
        answers.push(a);
        i += 1;
    }
    let r = render_markers(&markers, &answers);
    assert(markers_view(markers@) == parse_spec(template@));
    r
}

// ─── Laws ────────────────────────────────────────────────────────────────────

proof fn lemma_join_split(s: Seq<char>)
    ensures
        join_bar(split_on(s, '|')) == s,
        split_on(s, '|').len() >= 1,
    decreases s.len(),
{
    reveal_strlit("|");
    if s.len() > 0 {
        let t = s.drop_last();
        lemma_join_split(t);
        let parts = split_on(t, '|');
        if s.last() == '|' {
            let q = parts.push(seq![]);
            assert(q.drop_last() =~= parts);
            assert(s =~= t + "|"@ + Seq::<char>::empty());
        } else {
            let q = parts.update(parts.len() - 1, parts.last().push(s.last()));
            lemma_join_update_last(parts, s.last());
            assert(s =~= t.push(s.last()));
        }
    }
}

proof fn lemma_join_update_last(parts: Seq<Seq<char>>, c: char)
    requires
        parts.len() >= 1,
    ensures
        join_bar(parts.update(parts.len() - 1, parts.last().push(c))) == join_bar(parts).push(c),
{
    let q = parts.update(parts.len() - 1, parts.last().push(c));
    if parts.len() == 1 {
        assert(q[0] == parts[0].push(c));
    } else {
        assert(q.drop_last() =~= parts.drop_last());
        assert(join_bar(q) =~= join_bar(parts.drop_last()) + "|"@ + parts.last().push(c));
        assert(join_bar(parts).push(c) =~= join_bar(parts.drop_last()) + "|"@ + parts.last().push(c));
    }
}

/// A marker that is not resolved is left exactly as it was written.
pub proof fn lemma_unresolved_marker_is_verbatim(body: Seq<char>)
    requires
        body_marker(body) is Some,
    ensures
        render_literal_spec(body_marker(body)->0) == "${"@ + body + "}"@,
{
    if internal_of(body) is None {
        let (prefix, rest) = split_once(body, seq![':'])->0;
        let i = crate::text::first_occ(body, seq![':'])->0;
        assert(crate::text::is_first_occ(body, seq![':'], i)) by {
            assert(exists|j: int| crate::text::is_first_occ(body, seq![':'], j));
        }
        assert(body.subrange(i, i + 1)[0] == body[i]);
        assert(body =~= prefix + seq![':'] + rest);
        lemma_verbatim_prefixed(body, prefix, rest);
    }
}

proof fn lemma_head(head: Seq<char>, prefix: Seq<char>, rest: Seq<char>)
    requires
        head == "${"@ + prefix + seq![':'],
    ensures
        head + rest + "}"@ == "${"@ + (prefix + seq![':'] + rest) + "}"@,
{
    assert(head + rest + "}"@ =~= "${"@ + (prefix + seq![':'] + rest) + "}"@);
}

proof fn lemma_verbatim_prefixed(body: Seq<char>, prefix: Seq<char>, rest: Seq<char>)
    requires
        internal_of(body) is None,
        split_once(body, seq![':']) == Some((prefix, rest)),
        body == prefix + seq![':'] + rest,
        body_marker(body) is Some,
    ensures
        render_literal_spec(body_marker(body)->0) == "${"@ + body + "}"@,
{
    let m = body_marker(body)->0;
    if prefix == "env"@ {
        assert("${env:"@ =~= "${"@ + "env"@ + seq![':']) by {
            reveal_strlit("${env:");
            reveal_strlit("${");
            reveal_strlit("env");
        }
        lemma_head("${env:"@, prefix, rest);
    } else if prefix == "var"@ {
        assert("${var:"@ =~= "${"@ + "var"@ + seq![':']) by {
            reveal_strlit("${var:");
            reveal_strlit("${");
            reveal_strlit("var");
        }
        lemma_head("${var:"@, prefix, rest);
    } else if prefix == "secret"@ {
        assert("${secret:"@ =~= "${"@ + "secret"@ + seq![':']) by {
            reveal_strlit("${secret:");
            reveal_strlit("${");
            reveal_strlit("secret");
        }
        lemma_head("${secret:"@, prefix, rest);
    } else if prefix == "master"@ {
        assert("${master:"@ =~= "${"@ + "master"@ + seq![':']) by {
            reveal_strlit("${master:");
            reveal_strlit("${");
            reveal_strlit("master");
        }
        lemma_head("${master:"@, prefix, rest);
    } else if prefix == "ask"@ {
        assert("${ask:"@ =~= "${"@ + "ask"@ + seq![':']) by {
            reveal_strlit("${ask:");
            reveal_strlit("${");
            reveal_strlit("ask");
        }
        lemma_head("${ask:"@, prefix, rest);
        let parts = split_on(rest, '|');
        lemma_join_split(rest);
        if parts.len() == 1 {
            assert(parts.drop_first().len() == 0);
            assert(join_bar(parts) == parts[0]);
        } else {
            lemma_join_drop_first(parts);
            assert(render_literal_spec(m) =~= "${ask:"@ + (parts[0] + "|"@ + join_bar(parts.drop_first())) + "}"@);
        }
    } else {
        assert(prefix == "cmd"@);
        assert("${cmd:"@ =~= "${"@ + "cmd"@ + seq![':']) by {
            reveal_strlit("${cmd:");
            reveal_strlit("${");
            reveal_strlit("cmd");
        }
        lemma_head("${cmd:"@, prefix, rest);
    }
}

proof fn lemma_join_drop_first(parts: Seq<Seq<char>>)
    requires
        parts.len() >= 2,
    ensures
        join_bar(parts) == parts[0] + "|"@ + join_bar(parts.drop_first()),
    decreases parts.len(),
{
    if parts.len() == 2 {
        assert(parts.drop_last() =~= seq![parts[0]]);
        assert(parts.drop_first() =~= seq![parts[1]]);
        assert(join_bar(parts.drop_last()) == parts[0]);
        assert(join_bar(parts.drop_first()) == parts[1]);
        assert(join_bar(parts) == join_bar(parts.drop_last()) + "|"@ + parts.last());
        assert(join_bar(parts) =~= parts[0] + "|"@ + join_bar(parts.drop_first()));
    } else {
        lemma_join_drop_first(parts.drop_last());
        assert(parts.drop_last().drop_first() =~= parts.drop_first().drop_last());
        assert(parts.drop_first().last() == parts.last());
        assert(parts.drop_last()[0] == parts[0]);
        assert(join_bar(parts) == join_bar(parts.drop_last()) + "|"@ + parts.last());
        assert(join_bar(parts.drop_first()) == join_bar(parts.drop_first().drop_last()) + "|"@ + parts.drop_first().last());
        assert(join_bar(parts) =~= parts[0] + "|"@ + join_bar(parts.drop_first()));
    }
}

/// The text of pieces when no marker is resolved.
pub open spec fn plain_text(ms: Seq<MarkerV>) -> Seq<char>
    decreases ms.len(),
{
    if ms.len() == 0 {
        seq![]
    } else {
        plain_text(ms.drop_last()) + piece_text(ms.last(), None)
    }
}

proof fn lemma_render_none(ms: Seq<MarkerV>)
    ensures
        render_spec(ms, Seq::new(ms.len(), |i: int| None::<Seq<char>>)) == plain_text(ms),
    decreases ms.len(),
{
    if ms.len() > 0 {
        lemma_render_none(ms.drop_last());
        let a = Seq::new(ms.len(), |i: int| None::<Seq<char>>);
        assert(a.drop_last() =~= Seq::new(ms.drop_last().len(), |i: int| None::<Seq<char>>));
    }
}

proof fn lemma_plain_text_cons(m: MarkerV, ms: Seq<MarkerV>)
    ensures
        plain_text(seq![m] + ms) == piece_text(m, None) + plain_text(ms),
    decreases ms.len(),
{
    if ms.len() == 0 {
        let one = seq![m] + ms;
        assert(one.len() == 1);
        assert(one.drop_last() =~= Seq::<MarkerV>::empty());
        assert(one.last() == m);
        assert(plain_text(Seq::<MarkerV>::empty()) == Seq::<char>::empty());
        assert(plain_text(one) == plain_text(one.drop_last()) + piece_text(m, None));
        assert(plain_text(one) =~= piece_text(m, None));
        assert(piece_text(m, None) + plain_text(ms) =~= piece_text(m, None));
    } else {
        lemma_plain_text_cons(m, ms.drop_last());
        assert((seq![m] + ms).drop_last() =~= seq![m] + ms.drop_last());
        assert((seq![m] + ms).last() == ms.last());
        assert(plain_text(seq![m] + ms) =~= piece_text(m, None) + plain_text(ms));
    }
}

proof fn lemma_plain_text_cons_lit(l: Seq<char>, ms: Seq<MarkerV>)
    ensures
        plain_text(cons_lit(l, ms)) == l + plain_text(ms),
{
    if ms.len() > 0 && ms[0] is Literal {
        let x = ms[0]->Literal_0;
        lemma_plain_text_cons(MarkerV::Literal(l + x), ms.drop_first());
        lemma_plain_text_cons(ms[0], ms.drop_first());
        assert(seq![ms[0]] + ms.drop_first() =~= ms);
        assert(l + plain_text(ms) =~= (l + x) + plain_text(ms.drop_first()));
    } else {
        lemma_plain_text_cons(MarkerV::Literal(l), ms);
    }
}

pub open spec fn has_escape_at(s: Seq<char>, j: int) -> bool {
    0 <= j && j + 2 < s.len() && s[j] == '$' && s[j + 1] == '$' && s[j + 2] == '{'
}

proof fn lemma_scan_plain(s: Seq<char>, i: int)
    requires
        0 <= i <= s.len(),
        forall|j: int| !#[trigger] has_escape_at(s, j),
    ensures
        plain_text(scan(s, i)) == s.skip(i),
    decreases s.len() - i,
{
    if i < s.len() {
        assert(!has_escape_at(s, i));
        if i + 1 < s.len() && s[i] == '$' && s[i + 1] == '{' {
            match close_from(s, i + 2) {
                Some(d) => {
                    let c = i + 2 + d;
                    lemma_close_from_bound(s, i + 2);
                    lemma_scan_plain(s, c + 1);
                    let body = s.subrange(i + 2, c);
                    match body_marker(body) {
                        Some(m) => {
                            lemma_unresolved_marker_is_verbatim(body);
                            lemma_plain_text_cons(m, scan(s, c + 1));
                            assert(s[c] == '}');
                            reveal_strlit("${");
                            reveal_strlit("}");
                            assert(s.skip(i) =~= "${"@ + body + "}"@ + s.skip(c + 1));
                        },
                        None => {
                            lemma_plain_text_cons_lit(s.subrange(i, c + 1), scan(s, c + 1));
                            assert(s.skip(i) =~= s.subrange(i, c + 1) + s.skip(c + 1));
                        },
                    }
                },
                None => {
                    lemma_plain_text_cons(MarkerV::Literal(s.skip(i)), Seq::empty());
                    assert(seq![MarkerV::Literal(s.skip(i))] + Seq::<MarkerV>::empty() =~= seq![MarkerV::Literal(s.skip(i))]);
                    assert(s.skip(i) + Seq::<char>::empty() =~= s.skip(i));
                },
            }
        } else {
            lemma_scan_plain(s, i + 1);
            lemma_plain_text_cons_lit(seq![s[i]], scan(s, i + 1));
            assert(s.skip(i) =~= seq![s[i]] + s.skip(i + 1));
        }
    } else {
        assert(s.skip(i) =~= Seq::<char>::empty());
    }
}

proof fn lemma_close_from_bound(s: Seq<char>, k: int)
    ensures
        close_from(s, k) matches Some(d) ==> 0 <= k && k + d < s.len() && s[k + d] == '}',
    decreases s.len() - k,
{
    if 0 <= k < s.len() && s[k] != '}' {
        lemma_close_from_bound(s, k + 1);
    }
}

/// With no value from the resolver, a template without `$${` escapes comes
/// out unchanged: parsing loses nothing and every marker that is not
/// resolved stays as it was written.
pub proof fn lemma_unresolved_template_is_verbatim(s: Seq<char>)
    requires
        forall|j: int| !#[trigger] has_escape_at(s, j),
    ensures
        render_spec(parse_spec(s), Seq::new(parse_spec(s).len(), |i: int| None::<Seq<char>>)) == s,
{
    lemma_render_none(parse_spec(s));
    lemma_scan_plain(s, 0);
    assert(s.skip(0) =~= s);
}

} // verus!
