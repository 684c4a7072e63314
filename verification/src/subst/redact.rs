//! Redaction of secret values from untrusted text.
//!
//! Resolved `${master:}`/`${secret:}` values (and the effective password)
//! must never appear in clear in messages that travel over an untrusted
//! channel (logs, diagnostic events, errors). This applies **to the text
//! already built**, just before it is emitted, replacing every literal
//! occurrence of each value by the fixed mark `••••`.
use vstd::prelude::*;
use crate::text::{chars_of, contains, has_prefix, matches_at, occurs_at, push_chars, string_of};

verus! {

/// Redaction mark (4 dots), as in the frontend and the contract.
pub const REDACTED: &'static str = "••••";

pub open spec fn bullets() -> Seq<char> {
    seq!['•', '•', '•', '•']
}

/// `str::replace`: every occurrence of `p` found scanning left to right,
/// without overlaps, replaced by `r`.
pub open spec fn replace_all(s: Seq<char>, p: Seq<char>, r: Seq<char>) -> Seq<char>
    decreases s.len(),
{
    if s.len() == 0 {
        seq![]
    } else if p.len() > 0 && has_prefix(s, p) {
        r + replace_all(s.skip(p.len() as int), p, r)
    } else {
        seq![s[0]] + replace_all(s.skip(1), p, r)
    }
}

/// The text with each non-empty value replaced in turn by `••••`.
pub open spec fn redact_spec(s: Seq<char>, values: Seq<Seq<char>>) -> Seq<char>
    decreases values.len(),
{
    if values.len() == 0 {
        s
    } else {
        let t = redact_spec(s, values.drop_last());
        if values.last().len() == 0 {
            t
        } else {
            replace_all(t, values.last(), bullets())
        }
    }
}

fn replace_chars(s: &Vec<char>, p: &Vec<char>, r: &Vec<char>) -> (out: Vec<char>)
    requires
        p@.len() > 0,
    ensures
        out@ == replace_all(s@, p@, r@),
{
    let mut out: Vec<char> = Vec::new();
    let mut i: usize = 0;
    assert(s@.skip(0) =~= s@);
    while i < s.len()
        invariant
            i <= s@.len(),
            p@.len() > 0,
            replace_all(s@, p@, r@) == out@ + replace_all(s@.skip(i as int), p@, r@),
        decreases s.len() - i,
    {
        let ghost t = s@.skip(i as int);
        let ghost before = out@;
        if matches_at(s, p, i) {
            assert(t.take(p@.len() as int) =~= s@.subrange(i as int, i + p@.len()));
            assert(has_prefix(t, p@));
            let mut k: usize = 0;
            while k < r.len()
                invariant
                    k <= r@.len(),
                    out@ == before + r@.take(k as int),
                decreases r.len() - k,
            {
                out.push(r[k]);
                k += 1;
                assert(out@ =~= before + r@.take(k as int));
            }
            assert(r@.take(k as int) =~= r@);
            assert(t.skip(p@.len() as int) =~= s@.skip(i + p@.len()));
            assert(out@ + replace_all(s@.skip(i + p@.len()), p@, r@) =~= before + (r@ + replace_all(
                t.skip(p@.len() as int),
                p@,
                r@,
            )));
            i = i + p.len();
        } else {
            assert(!has_prefix(t, p@)) by {
                if has_prefix(t, p@) {
                    assert(t.take(p@.len() as int) =~= s@.subrange(i as int, i + p@.len()));
                }
            }
            out.push(s[i]);
            assert(t.skip(1) =~= s@.skip(i + 1));
            assert(out@ + replace_all(s@.skip(i + 1), p@, r@) =~= before + (seq![t[0]] + replace_all(
                t.skip(1),
                p@,
                r@,
            )));
            i = i + 1;
        }
    }
    assert(out@ + replace_all(s@.skip(i as int), p@, r@) =~= out@);
    out
}

pub open spec fn values_view(v: Seq<String>) -> Seq<Seq<char>> {
    v.map_values(|s: String| s@)
}

/// Replaces in `text` every literal occurrence of each value of
/// `secret_values` by `••••`. Empty values are ignored (there is nothing to
/// mask, and replacing `""` would insert noise). The mark does not reveal
/// the secret's length.
pub fn redact_secrets(text: &str, secret_values: &[String]) -> (r: String)
    ensures
        r@ == redact_spec(text@, values_view(secret_values@)),
{
    let mut out = chars_of(text);
    let mark = chars_of(REDACTED);
    proof {
        reveal_strlit("••••");
    }
    assert(mark@ =~= bullets());
    let ghost vs = values_view(secret_values@);
    let mut i: usize = 0;
    assert(vs.take(0) =~= Seq::<Seq<char>>::empty());
    while i < secret_values.len()
        invariant
            i <= secret_values@.len(),
            vs == values_view(secret_values@),
            mark@ == bullets(),
            out@ == redact_spec(text@, vs.take(i as int)),
        decreases secret_values.len() - i,
    {
        let v = chars_of(secret_values[i].as_str());
        proof {
            assert(vs.take(i + 1).drop_last() =~= vs.take(i as int));
            assert(vs.take(i + 1).last() == v@);
        }
        if v.len() > 0 {
            out = replace_chars(&out, &v, &mark);
        }
        i += 1;
    }
    assert(vs.take(i as int) =~= vs);
    string_of(&out)
}

// ─── Laws ────────────────────────────────────────────────────────────────────

pub open spec fn bullet_free(s: Seq<char>) -> bool {
    forall|i: int| 0 <= i < s.len() ==> s[i] != '•'
}

/// A prefix of the output without marks is copied from the input.
proof fn lemma_plain_prefix(t: Seq<char>, p: Seq<char>, n: int)
    requires
        p.len() > 0,
        0 <= n <= replace_all(t, p, bullets()).len(),
        bullet_free(replace_all(t, p, bullets()).take(n)),
    ensures
        n <= t.len(),
        t.take(n) == replace_all(t, p, bullets()).take(n),
    decreases t.len(),
{
    let r = replace_all(t, p, bullets());
    if n > 0 {
        if t.len() == 0 {
        } else if has_prefix(t, p) {
            assert(r.take(n)[0] == '•');
        } else {
            let r1 = replace_all(t.skip(1), p, bullets());
            assert(r =~= seq![t[0]] + r1);
            let r1n = r1.take(n - 1);
            assert forall|i: int| 0 <= i < n - 1 implies #[trigger] r1n[i] != '•' by {
                assert(r1n[i] == r.take(n)[i + 1]);
            }
            lemma_plain_prefix(t.skip(1), p, n - 1);
            assert(t.take(n) =~= seq![t[0]] + t.skip(1).take(n - 1));
            assert(r.take(n) =~= seq![t[0]] + r1.take(n - 1));
        }
    }
}

/// Replacing by marks creates no mark-free text that was not there, and
/// leaves no occurrence of a mark-free pattern it replaced.
proof fn lemma_replace_occurrences(t: Seq<char>, p: Seq<char>, q: Seq<char>, j: int)
    requires
        p.len() > 0,
        q.len() > 0,
        bullet_free(q),
        occurs_at(replace_all(t, p, bullets()), q, j),
    ensures
        contains(t, q),
        q != p,
    decreases t.len(),
{
    let r = replace_all(t, p, bullets());
    if t.len() == 0 {
    } else if has_prefix(t, p) {
        let r1 = replace_all(t.skip(p.len() as int), p, bullets());
        assert(r =~= bullets() + r1);
        if j < 4 {
            assert(r.subrange(j, j + q.len())[0] == r[j]);
            assert(r[j] == '•');
        } else {
            assert(r1.subrange(j - 4, j - 4 + q.len()) =~= r.subrange(j, j + q.len()));
            lemma_replace_occurrences(t.skip(p.len() as int), p, q, j - 4);
            let k = choose|k: int| occurs_at(t.skip(p.len() as int), q, k);
            assert(t.subrange(k + p.len(), k + p.len() + q.len()) =~= t.skip(p.len() as int).subrange(k, k + q.len()));
            assert(occurs_at(t, q, k + p.len()));
        }
    } else {
        let r1 = replace_all(t.skip(1), p, bullets());
        assert(r =~= seq![t[0]] + r1);
        if j >= 1 {
            assert(r1.subrange(j - 1, j - 1 + q.len()) =~= r.subrange(j, j + q.len()));
            lemma_replace_occurrences(t.skip(1), p, q, j - 1);
            let k = choose|k: int| occurs_at(t.skip(1), q, k);
            assert(t.subrange(k + 1, k + 1 + q.len()) =~= t.skip(1).subrange(k, k + q.len()));
            assert(occurs_at(t, q, k + 1));
        } else {
            let n = q.len() - 1;
            assert(r.subrange(0, q.len() as int) == q);
            let r1n = r1.take(n);
            assert forall|i: int| 0 <= i < n implies #[trigger] r1n[i] != '•' by {
                assert(r1n[i] == q[i + 1]);
            }
            lemma_plain_prefix(t.skip(1), p, n);
            assert(t.take(q.len() as int) =~= seq![t[0]] + t.skip(1).take(n));
            assert(r1.take(n) =~= q.skip(1));
            assert(t.take(q.len() as int) =~= q);
            assert(t.subrange(0, q.len() as int) =~= q);
            assert(occurs_at(t, q, 0));
            if q == p {
                assert(has_prefix(t, p));
            }
        }
    }
}

/// No value that is non-empty and holds no `•` survives redaction: every
/// one of its occurrences is masked, and masking one value never brings
/// back another.
pub proof fn lemma_redacted_text_hides_values(s: Seq<char>, values: Seq<Seq<char>>, k: int)
    requires
        0 <= k < values.len(),
        values[k].len() > 0,
        bullet_free(values[k]),
    ensures
        !contains(redact_spec(s, values), values[k]),
    decreases values.len(),
{
    let t = redact_spec(s, values.drop_last());
    let last = values.last();
    if k == values.len() - 1 {
        if contains(replace_all(t, last, bullets()), last) {
            let j = choose|j: int| occurs_at(replace_all(t, last, bullets()), last, j);
            lemma_replace_occurrences(t, last, last, j);
        }
    } else {
        assert(values.drop_last()[k] == values[k]);
        lemma_redacted_text_hides_values(s, values.drop_last(), k);
        if last.len() > 0 && contains(replace_all(t, last, bullets()), values[k]) {
            let j = choose|j: int| occurs_at(replace_all(t, last, bullets()), values[k], j);
            lemma_replace_occurrences(t, last, values[k], j);
        }
    }
}

} // verus!
