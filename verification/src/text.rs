//! Character-level text toolkit shared by the protocol parsers and the
//! command builders: the specifications of the `str` operations the library
//! relies on (prefixes, first/last occurrences, whitespace tokens, trimming,
//! number parsing and formatting), each with an executable counterpart proved
//! against it.
use vstd::prelude::*;
use vstd::utf8::{decode_utf8, valid_utf8};

verus! {

// ─── Specifications ──────────────────────────────────────────────────────────

/// `char::is_whitespace`: the Unicode `White_Space` property.
pub open spec fn is_ws(c: char) -> bool {
    let u = c as u32;
    ||| 0x09 <= u && u <= 0x0D
    ||| u == 0x20
    ||| u == 0x85
    ||| u == 0xA0
    ||| u == 0x1680
    ||| 0x2000 <= u && u <= 0x200A
    ||| u == 0x2028
    ||| u == 0x2029
    ||| u == 0x202F
    ||| u == 0x205F
    ||| u == 0x3000
}

pub open spec fn is_ascii_digit(c: char) -> bool {
    '0' <= c && c <= '9'
}

pub open spec fn is_ascii_alpha(c: char) -> bool {
    ('a' <= c && c <= 'z') || ('A' <= c && c <= 'Z')
}

pub open spec fn is_ascii_alnum(c: char) -> bool {
    is_ascii_digit(c) || is_ascii_alpha(c)
}

/// `s` starts with `p`.
pub open spec fn has_prefix<A>(s: Seq<A>, p: Seq<A>) -> bool {
    p.len() <= s.len() && s.take(p.len() as int) == p
}

/// `s` ends with `p`.
pub open spec fn has_suffix<A>(s: Seq<A>, p: Seq<A>) -> bool {
    p.len() <= s.len() && s.skip(s.len() - p.len()) == p
}

/// `p` occurs in `s` at index `i`.
pub open spec fn occurs_at<A>(s: Seq<A>, p: Seq<A>, i: int) -> bool {
    0 <= i && i + p.len() <= s.len() && s.subrange(i, i + p.len() as int) == p
}

pub open spec fn is_first_occ<A>(s: Seq<A>, p: Seq<A>, i: int) -> bool {
    occurs_at(s, p, i) && forall|j: int| 0 <= j < i ==> !occurs_at(s, p, j)
}

pub open spec fn is_last_occ<A>(s: Seq<A>, p: Seq<A>, i: int) -> bool {
    occurs_at(s, p, i) && forall|j: int| i < j <= s.len() ==> !occurs_at(s, p, j)
}

/// `str::find`: index of the first occurrence of `p` in `s`.
pub open spec fn first_occ<A>(s: Seq<A>, p: Seq<A>) -> Option<int> {
    if exists|i: int| is_first_occ(s, p, i) {
        Some(choose|i: int| is_first_occ(s, p, i))
    } else {
        None
    }
}

/// `str::rfind`: index of the last occurrence of `p` in `s`.
pub open spec fn last_occ<A>(s: Seq<A>, p: Seq<A>) -> Option<int> {
    if exists|i: int| is_last_occ(s, p, i) {
        Some(choose|i: int| is_last_occ(s, p, i))
    } else {
        None
    }
}

/// `s` contains `p`.
pub open spec fn contains<A>(s: Seq<A>, p: Seq<A>) -> bool {
    exists|i: int| occurs_at(s, p, i)
}

/// `str::split_once`: around the first occurrence of `p`.
pub open spec fn split_once<A>(s: Seq<A>, p: Seq<A>) -> Option<(Seq<A>, Seq<A>)> {
    match first_occ(s, p) {
        Some(i) => Some((s.take(i), s.skip(i + p.len()))),
        None => None,
    }
}

/// `str::rsplit_once`: around the last occurrence of `p`.
pub open spec fn rsplit_once<A>(s: Seq<A>, p: Seq<A>) -> Option<(Seq<A>, Seq<A>)> {
    match last_occ(s, p) {
        Some(i) => Some((s.take(i), s.skip(i + p.len()))),
        None => None,
    }
}

/// `str::strip_prefix`.
pub open spec fn strip_prefix<A>(s: Seq<A>, p: Seq<A>) -> Option<Seq<A>> {
    if has_prefix(s, p) {
        Some(s.skip(p.len() as int))
    } else {
        None
    }
}

/// `str::strip_suffix`.
pub open spec fn strip_suffix<A>(s: Seq<A>, p: Seq<A>) -> Option<Seq<A>> {
    if has_suffix(s, p) {
        Some(s.take(s.len() - p.len()))
    } else {
        None
    }
}

/// Number of leading whitespace characters.
pub open spec fn lead_ws(s: Seq<char>) -> nat
    decreases s.len(),
{
    if s.len() > 0 && is_ws(s[0]) {
        1 + lead_ws(s.drop_first())
    } else {
        0
    }
}

/// Length of the leading run of non-whitespace characters.
pub open spec fn lead_word(s: Seq<char>) -> nat
    decreases s.len(),
{
    if s.len() > 0 && !is_ws(s[0]) {
        1 + lead_word(s.drop_first())
    } else {
        0
    }
}

/// Number of trailing whitespace characters.
pub open spec fn trail_ws(s: Seq<char>) -> nat
    decreases s.len(),
{
    if s.len() > 0 && is_ws(s.last()) {
        1 + trail_ws(s.drop_last())
    } else {
        0
    }
}

/// `str::trim_start`.
pub open spec fn trim_start(s: Seq<char>) -> Seq<char> {
    s.skip(lead_ws(s) as int)
}

/// `str::trim_end`.
pub open spec fn trim_end(s: Seq<char>) -> Seq<char> {
    s.take(s.len() - trail_ws(s))
}

/// `str::trim`.
pub open spec fn trim(s: Seq<char>) -> Seq<char> {
    trim_end(trim_start(s))
}

/// `str::split_whitespace`: the maximal runs of non-whitespace characters.
pub open spec fn ws_tokens(s: Seq<char>) -> Seq<Seq<char>>
    decreases s.len(),
{
    if s.len() == 0 {
        seq![]
    } else if is_ws(s[0]) {
        ws_tokens(s.drop_first())
    } else {
        let k = lead_word(s);
        proof {
            lemma_lead_word_bound(s);
        }
        seq![s.take(k as int)] + ws_tokens(s.skip(k as int))
    }
}

/// The `n`-th whitespace-separated token, if there is one.
pub open spec fn ws_token(s: Seq<char>, n: int) -> Option<Seq<char>> {
    if 0 <= n < ws_tokens(s).len() {
        Some(ws_tokens(s)[n])
    } else {
        None
    }
}

/// Value of a digit character in the given radix (`None` if it is not one).
pub open spec fn digit_value(c: char, radix: nat) -> Option<nat> {
    let v: int = if '0' <= c && c <= '9' {
        c as int - '0' as int
    } else if 'a' <= c && c <= 'z' {
        c as int - 'a' as int + 10
    } else if 'A' <= c && c <= 'Z' {
        c as int - 'A' as int + 10
    } else {
        99
    };
    if 0 <= v < radix {
        Some(v as nat)
    } else {
        None
    }
}

pub open spec fn all_digits(s: Seq<char>, radix: nat) -> bool {
    forall|i: int| 0 <= i < s.len() ==> digit_value(#[trigger] s[i], radix).is_some()
}

/// Positional value of a digit string (left to right).
pub open spec fn digits_val(s: Seq<char>, radix: nat) -> nat
    decreases s.len(),
{
    if s.len() == 0 {
        0
    } else {
        let d = match digit_value(s.last(), radix) {
            Some(v) => v,
            None => 0,
        };
        digits_val(s.drop_last(), radix) * radix + d
    }
}

/// `from_str_radix` on an unsigned type whose largest value is `max`: an
/// optional `+`, then at least one digit, and no overflow.
pub open spec fn parse_uint(s: Seq<char>, radix: nat, max: nat) -> Option<nat> {
    let d = if s.len() > 0 && s[0] == '+' {
        s.drop_first()
    } else {
        s
    };
    if d.len() > 0 && all_digits(d, radix) && digits_val(d, radix) <= max {
        Some(digits_val(d, radix))
    } else {
        None
    }
}

/// Lower-case hexadecimal (and decimal) digit for `d < 16`.
pub open spec fn hex_char(d: nat) -> char {
    if d == 0 { '0' } else if d == 1 { '1' } else if d == 2 { '2' } else if d == 3 { '3' }
    else if d == 4 { '4' } else if d == 5 { '5' } else if d == 6 { '6' } else if d == 7 { '7' }
    else if d == 8 { '8' } else if d == 9 { '9' } else if d == 10 { 'a' } else if d == 11 { 'b' }
    else if d == 12 { 'c' } else if d == 13 { 'd' } else if d == 14 { 'e' } else { 'f' }
}

/// Decimal rendering of a natural number (`Display` of the integer types).
pub open spec fn dec(n: nat) -> Seq<char>
    decreases n,
{
    if n < 10 {
        seq![hex_char(n)]
    } else {
        dec(n / 10).push(hex_char(n % 10))
    }
}

/// `{:02x}` of a byte.
pub open spec fn hex2(b: u8) -> Seq<char> {
    seq![hex_char((b / 16) as nat), hex_char((b % 16) as nat)]
}

/// `{:04x}` of a 16-bit value.
pub open spec fn hex4(v: u16) -> Seq<char> {
    seq![
        hex_char((v / 4096) as nat),
        hex_char(((v / 256) % 16) as nat),
        hex_char(((v / 16) % 16) as nat),
        hex_char((v % 16) as nat),
    ]
}

/// What `String::from_utf8_lossy` makes of a byte string.
pub uninterp spec fn lossy_utf8(b: Seq<u8>) -> Seq<char>;

/// What `format!("{s:?}")` makes of a string (quoted, with escapes).
pub uninterp spec fn debug_text(s: Seq<char>) -> Seq<char>;

/// What `str::to_lowercase` makes of a string.
pub uninterp spec fn lowercase_of(s: Seq<char>) -> Seq<char>;

// ─── Order of strings ────────────────────────────────────────────────────────

/// `a < b` in the order of `String`: lexicographic by characters (the byte
/// order of UTF-8 is that of the code points).
pub open spec fn str_lt(a: Seq<char>, b: Seq<char>) -> bool
    decreases a.len(),
{
    if a.len() == 0 {
        b.len() > 0
    } else if b.len() == 0 {
        false
    } else if a[0] != b[0] {
        a[0] < b[0]
    } else {
        str_lt(a.drop_first(), b.drop_first())
    }
}

pub open spec fn sorted_strs(s: Seq<Seq<char>>) -> bool {
    forall|i: int, j: int| 0 <= i < j < s.len() ==> !str_lt(#[trigger] s[j], #[trigger] s[i])
}

pub proof fn lemma_lt_irrefl(a: Seq<char>)
    ensures
        !str_lt(a, a),
    decreases a.len(),
{
    if a.len() > 0 {
        lemma_lt_irrefl(a.drop_first());
    }
}

pub proof fn lemma_lt_trans(a: Seq<char>, b: Seq<char>, c: Seq<char>)
    requires
        str_lt(a, b),
        str_lt(b, c),
    ensures
        str_lt(a, c),
    decreases a.len(),
{
    if a.len() > 0 && b.len() > 0 && c.len() > 0 && a[0] == b[0] && b[0] == c[0] {
        lemma_lt_trans(a.drop_first(), b.drop_first(), c.drop_first());
    }
}

pub proof fn lemma_lt_total(a: Seq<char>, b: Seq<char>)
    ensures
        a != b ==> str_lt(a, b) || str_lt(b, a),
    decreases a.len(),
{
    if a.len() > 0 && b.len() > 0 && a[0] == b[0] {
        lemma_lt_total(a.drop_first(), b.drop_first());
        if a.drop_first() == b.drop_first() {
            assert(a =~= seq![a[0]] + a.drop_first());
            assert(b =~= seq![b[0]] + b.drop_first());
        }
    } else if a.len() == 0 && b.len() == 0 {
        assert(a =~= b);
    }
}

/// `a < b` for strings.
pub fn str_less(a: &str, b: &str) -> (r: bool)
    ensures
        r == str_lt(a@, b@),
{
    let x = chars_of(a);
    let y = chars_of(b);
    let mut i: usize = 0;
    assert(x@.skip(0) =~= x@);
    assert(y@.skip(0) =~= y@);
    while i < x.len() && i < y.len() && x[i] == y[i]
        invariant
            i <= x@.len(),
            i <= y@.len(),
            str_lt(x@, y@) == str_lt(x@.skip(i as int), y@.skip(i as int)),
        decreases x.len() - i,
    {
        let ghost xs = x@.skip(i as int);
        let ghost ys = y@.skip(i as int);
        assert(xs.drop_first() =~= x@.skip(i + 1));
        assert(ys.drop_first() =~= y@.skip(i + 1));
        i += 1;
    }
    let ghost xs = x@.skip(i as int);
    let ghost ys = y@.skip(i as int);
    if i == x.len() {
        i < y.len()
    } else if i == y.len() {
        false
    } else {
        assert(xs[0] == x@[i as int]);
        assert(ys[0] == y@[i as int]);
        x[i] < y[i]
    }
}

// ─── Lemmas ──────────────────────────────────────────────────────────────────

pub proof fn lemma_lead_word_bound(s: Seq<char>)
    ensures
        lead_word(s) <= s.len(),
        forall|i: int| 0 <= i < lead_word(s) ==> !is_ws(#[trigger] s[i]),
        lead_word(s) < s.len() ==> is_ws(s[lead_word(s) as int]),
    decreases s.len(),
{
    if s.len() > 0 && !is_ws(s[0]) {
        lemma_lead_word_bound(s.drop_first());
        assert forall|i: int| 0 <= i < lead_word(s) implies !is_ws(#[trigger] s[i]) by {
            if i > 0 {
                assert(s[i] == s.drop_first()[i - 1]);
            }
        }
    }
}

pub proof fn lemma_lead_ws_bound(s: Seq<char>)
    ensures
        lead_ws(s) <= s.len(),
        forall|i: int| 0 <= i < lead_ws(s) ==> is_ws(#[trigger] s[i]),
        lead_ws(s) < s.len() ==> !is_ws(s[lead_ws(s) as int]),
    decreases s.len(),
{
    if s.len() > 0 && is_ws(s[0]) {
        lemma_lead_ws_bound(s.drop_first());
        assert forall|i: int| 0 <= i < lead_ws(s) implies is_ws(#[trigger] s[i]) by {
            if i > 0 {
                assert(s[i] == s.drop_first()[i - 1]);
            }
        }
    }
}

pub proof fn lemma_trail_ws_bound(s: Seq<char>)
    ensures
        trail_ws(s) <= s.len(),
        forall|i: int| s.len() - trail_ws(s) <= i < s.len() ==> is_ws(#[trigger] s[i]),
        trail_ws(s) < s.len() ==> !is_ws(s[s.len() - trail_ws(s) - 1]),
    decreases s.len(),
{
    if s.len() > 0 && is_ws(s.last()) {
        lemma_trail_ws_bound(s.drop_last());
        assert forall|i: int| s.len() - trail_ws(s) <= i < s.len() implies is_ws(#[trigger] s[i]) by {
            if i < s.len() - 1 {
                assert(s[i] == s.drop_last()[i]);
            }
        }
    }
}

/// `lead_ws` of a suffix that starts inside the leading whitespace.
pub proof fn lemma_lead_ws_skip(s: Seq<char>, i: int)
    requires
        0 <= i <= lead_ws(s),
    ensures
        lead_ws(s.skip(i)) + i == lead_ws(s),
    decreases i,
{
    if i > 0 {
        lemma_lead_ws_bound(s);
        assert(s.drop_first().skip(i - 1) =~= s.skip(i));
        lemma_lead_ws_skip(s.drop_first(), i - 1);
    } else {
        assert(s.skip(0) =~= s);
    }
}

/// `lead_word` of a suffix that starts inside the leading word.
pub proof fn lemma_lead_word_skip(s: Seq<char>, i: int)
    requires
        0 <= i <= lead_word(s),
    ensures
        lead_word(s.skip(i)) + i == lead_word(s),
    decreases i,
{
    if i > 0 {
        lemma_lead_word_bound(s);
        assert(s.drop_first().skip(i - 1) =~= s.skip(i));
        lemma_lead_word_skip(s.drop_first(), i - 1);
    } else {
        assert(s.skip(0) =~= s);
    }
}

/// `trail_ws` of a prefix that ends inside the trailing whitespace.
pub proof fn lemma_trail_ws_take(s: Seq<char>, i: int)
    requires
        0 <= i <= trail_ws(s),
    ensures
        trail_ws(s.take(s.len() - i)) + i == trail_ws(s),
    decreases i,
{
    if i > 0 {
        lemma_trail_ws_bound(s);
        assert(s.drop_last().take(s.drop_last().len() - (i - 1)) =~= s.take(s.len() - i));
        lemma_trail_ws_take(s.drop_last(), i - 1);
    } else {
        assert(s.take(s.len() - 0) =~= s);
    }
}

/// Unfolding `ws_tokens` at an arbitrary position: leading whitespace is
/// skipped, and a word at the front is the first token.
pub proof fn lemma_ws_tokens_skip_ws(s: Seq<char>, i: int)
    requires
        0 <= i <= lead_ws(s),
    ensures
        ws_tokens(s.skip(i)) == ws_tokens(s),
    decreases i,
{
    if i > 0 {
        lemma_lead_ws_bound(s);
        assert(s.drop_first().skip(i - 1) =~= s.skip(i));
        lemma_ws_tokens_skip_ws(s.drop_first(), i - 1);
    } else {
        assert(s.skip(0) =~= s);
    }
}

pub proof fn lemma_first_occ_unique<A>(s: Seq<A>, p: Seq<A>, i: int)
    requires
        is_first_occ(s, p, i),
    ensures
        first_occ(s, p) == Some(i),
{
    let k = choose|k: int| is_first_occ::<A>(s, p, k);
    assert(is_first_occ(s, p, k));
    if k < i {
        assert(!occurs_at(s, p, k));
    } else if i < k {
        assert(!occurs_at(s, p, i));
    }
}

pub proof fn lemma_last_occ_unique<A>(s: Seq<A>, p: Seq<A>, i: int)
    requires
        is_last_occ(s, p, i),
    ensures
        last_occ(s, p) == Some(i),
{
    let k = choose|k: int| is_last_occ::<A>(s, p, k);
    assert(is_last_occ(s, p, k));
    if k < i {
        assert(!occurs_at(s, p, i));
    } else if i < k {
        assert(!occurs_at(s, p, k));
    }
}

pub proof fn lemma_digits_mono(s: Seq<char>, radix: nat, k: int)
    requires
        0 <= k <= s.len(),
        radix >= 1,
    ensures
        digits_val(s.take(k), radix) <= digits_val(s, radix),
    decreases s.len(),
{
    if k == s.len() {
        assert(s.take(k) =~= s);
    } else {
        lemma_digits_mono(s.drop_last(), radix, k);
        assert(s.drop_last().take(k) =~= s.take(k));
        let a = digits_val(s.drop_last(), radix);
        let d = match digit_value(s.last(), radix) {
            Some(v) => v,
            None => 0,
        };
        assert(a * radix + d >= a) by (nonlinear_arith)
            requires
                radix >= 1,
                d >= 0,
        ;
    }
}

pub proof fn lemma_dec_nonempty(n: nat)
    ensures
        dec(n).len() >= 1,
    decreases n,
{
    if n >= 10 {
        lemma_dec_nonempty(n / 10);
    }
}

// ─── Executable counterparts ─────────────────────────────────────────────────

pub fn is_ws_char(c: char) -> (r: bool)
    ensures
        r == is_ws(c),
{
    let u = c as u32;
    (0x09 <= u && u <= 0x0D) || u == 0x20 || u == 0x85 || u == 0xA0 || u == 0x1680 || (0x2000
        <= u && u <= 0x200A) || u == 0x2028 || u == 0x2029 || u == 0x202F || u == 0x205F || u
        == 0x3000
}

pub fn is_digit_char(c: char) -> (r: bool)
    ensures
        r == is_ascii_digit(c),
{
    '0' <= c && c <= '9'
}

pub fn is_alnum_char(c: char) -> (r: bool)
    ensures
        r == is_ascii_alnum(c),
{
    ('0' <= c && c <= '9') || ('a' <= c && c <= 'z') || ('A' <= c && c <= 'Z')
}

pub fn is_alpha_char(c: char) -> (r: bool)
    ensures
        r == is_ascii_alpha(c),
{
    ('a' <= c && c <= 'z') || ('A' <= c && c <= 'Z')
}

/// The characters of a string slice, in order.
pub fn chars_of(s: &str) -> (r: Vec<char>)
    ensures
        r@ == s@,
{
    let mut out: Vec<char> = Vec::new();
    for c in it: s.chars()
        invariant
            out@ == it.seq().take(it.index() as int),
    {
        out.push(c);
    }
    out
}

/// `String::push`.
#[verifier::external_body]
pub(crate) fn push_char(s: &mut String, c: char)
    ensures
        final(s)@ == old(s)@.push(c),
{
    s.push(c)
}

/// Appends characters to a string.
pub fn push_chars(out: &mut String, cs: &Vec<char>)
    ensures
        final(out)@ == old(out)@ + cs@,
{
    let ghost start = out@;
    let mut i: usize = 0;
    while i < cs.len()
        invariant
            0 <= i <= cs.len(),
            out@ == start + cs@.take(i as int),
        decreases cs.len() - i,
    {
        push_char(out, cs[i]);
        i += 1;
        assert(cs@.take(i as int) =~= cs@.take(i - 1).push(cs@[i - 1]));
    }
    assert(cs@.take(cs.len() as int) =~= cs@);
}

/// Appends a string slice to a string.
pub fn push_str(out: &mut String, s: &str)
    ensures
        final(out)@ == old(out)@ + s@,
{
    let cs = chars_of(s);
    push_chars(out, &cs);
}

/// A string made of the given characters.
pub fn string_of(cs: &Vec<char>) -> (r: String)
    ensures
        r@ == cs@,
{
    let mut out = String::new();
    push_chars(&mut out, cs);
    assert(out@ =~= cs@);
    out
}

/// The string `a` followed by `b`.
pub fn concat_str(a: &str, b: &str) -> (r: String)
    ensures
        r@ == a@ + b@,
{
    let mut out = String::new();
    push_str(&mut out, a);
    push_str(&mut out, b);
    assert(out@ =~= a@ + b@);
    out
}

/// Equality of two strings, character by character.
pub fn str_eq(a: &str, b: &str) -> (r: bool)
    ensures
        r == (a@ == b@),
{
    let x = chars_of(a);
    let y = chars_of(b);
    chars_eq(&x, &y)
}

pub fn chars_eq(a: &Vec<char>, b: &Vec<char>) -> (r: bool)
    ensures
        r == (a@ == b@),
{
    if a.len() != b.len() {
        return false;
    }
    let mut i: usize = 0;
    while i < a.len()
        invariant
            a.len() == b.len(),
            0 <= i <= a.len(),
            forall|j: int| 0 <= j < i ==> a@[j] == b@[j],
        decreases a.len() - i,
    {
        if a[i] != b[i] {
            return false;
        }
        i += 1;
    }
    assert(a@ =~= b@);
    true
}

/// `s[lo..hi]` as a new vector.
pub fn chars_range(s: &Vec<char>, lo: usize, hi: usize) -> (r: Vec<char>)
    requires
        lo <= hi <= s.len(),
    ensures
        r@ == s@.subrange(lo as int, hi as int),
{
    let mut out: Vec<char> = Vec::new();
    let mut i = lo;
    while i < hi
        invariant
            lo <= i <= hi <= s.len(),
            out@ == s@.subrange(lo as int, i as int),
        decreases hi - i,
    {
        out.push(s[i]);
        i += 1;
        assert(out@ =~= s@.subrange(lo as int, i as int));
    }
    out
}

/// `s[lo..]` as a new vector.
pub fn tail(s: &Vec<char>, lo: usize) -> (r: Vec<char>)
    requires
        lo <= s.len(),
    ensures
        r@ == s@.skip(lo as int),
{
    let r = chars_range(s, lo, s.len());
    assert(s@.subrange(lo as int, s.len() as int) =~= s@.skip(lo as int));
    r
}

/// `p` occurs in `s` at `i`.
pub fn matches_at(s: &Vec<char>, p: &Vec<char>, i: usize) -> (r: bool)
    ensures
        r == occurs_at(s@, p@, i as int),
{
    if p.len() > s.len() || i > s.len() - p.len() {
        return false;
    }
    let mut k: usize = 0;
    while k < p.len()
        invariant
            i + p.len() <= s.len(),
            0 <= k <= p.len(),
            forall|j: int| 0 <= j < k ==> s@[i + j] == p@[j],
        decreases p.len() - k,
    {
        if s[i + k] != p[k] {
            assert(s@.subrange(i as int, i + p.len())[k as int] != p@[k as int]);
            return false;
        }
        k += 1;
    }
    assert(s@.subrange(i as int, i + p.len()) =~= p@);
    true
}

/// `str::starts_with`.
pub fn starts_with(s: &Vec<char>, p: &Vec<char>) -> (r: bool)
    ensures
        r == has_prefix(s@, p@),
{
    let r = matches_at(s, p, 0);
    assert(p@.len() <= s@.len() ==> s@.subrange(0, p@.len() as int) =~= s@.take(p@.len() as int));
    r
}

/// `str::ends_with`.
pub fn ends_with(s: &Vec<char>, p: &Vec<char>) -> (r: bool)
    ensures
        r == has_suffix(s@, p@),
{
    if p.len() > s.len() {
        return false;
    }
    let r = matches_at(s, p, s.len() - p.len());
    assert(s@.subrange(s@.len() - p@.len(), s@.len() as int) =~= s@.skip(s@.len() - p@.len()));
    r
}

/// First occurrence of `p` in `s` at or after `from`.
pub fn find_from(s: &Vec<char>, p: &Vec<char>, from: usize) -> (r: Option<usize>)
    requires
        from <= s.len(),
    ensures
        match r {
            Some(i) => from <= i && is_first_occ(s@.skip(from as int), p@, i - from),
            None => first_occ(s@.skip(from as int), p@) is None,
        },
{
    let ghost t = s@.skip(from as int);
    let mut i = from;
    loop
        invariant
            from <= i <= s.len(),
            t == s@.skip(from as int),
            forall|j: int| 0 <= j < i - from ==> !occurs_at(t, p@, j),
        decreases s.len() - i,
    {
        let m = matches_at(s, p, i);
        assert(m == occurs_at(t, p@, i - from)) by {
            if occurs_at(s@, p@, i as int) {
                assert(t.subrange(i - from, i - from + p@.len()) =~= s@.subrange(
                    i as int,
                    i + p@.len(),
                ));
            }
            if occurs_at(t, p@, i - from) {
                assert(t.subrange(i - from, i - from + p@.len()) =~= s@.subrange(
                    i as int,
                    i + p@.len(),
                ));
            }
        }
        if m {
            return Some(i);
        }
        if i == s.len() {
            assert forall|k: int| !is_first_occ(t, p@, k) by {
                if 0 <= k <= i - from {
                } else {
                    assert(!occurs_at(t, p@, k));
                }
            }
            return None;
        }
        i += 1;
    }
}

/// `str::find`.
pub fn find(s: &Vec<char>, p: &Vec<char>) -> (r: Option<usize>)
    ensures
        r == (match first_occ(s@, p@) {
            Some(i) => Some(i as usize),
            None => None::<usize>,
        }),
        r matches Some(i) ==> is_first_occ(s@, p@, i as int),
{
    let r = find_from(s, p, 0);
    assert(s@.skip(0) =~= s@);
    if let Some(i) = r {
        proof {
            lemma_first_occ_unique(s@, p@, i as int);
        }
    }
    r
}

/// `str::rfind`.
pub fn rfind(s: &Vec<char>, p: &Vec<char>) -> (r: Option<usize>)
    ensures
        r == (match last_occ(s@, p@) {
            Some(i) => Some(i as usize),
            None => None::<usize>,
        }),
        r matches Some(i) ==> is_last_occ(s@, p@, i as int),
{
    let mut i = s.len();
    loop
        invariant
            0 <= i <= s.len(),
            forall|j: int| i < j <= s.len() ==> !occurs_at(s@, p@, j),
        decreases i,
    {
        if matches_at(s, p, i) {
            proof {
                lemma_last_occ_unique(s@, p@, i as int);
            }
            return Some(i);
        }
        if i == 0 {
            assert forall|k: int| !is_last_occ(s@, p@, k) by {
                if 0 <= k <= s.len() {
                } else {
                    assert(!occurs_at(s@, p@, k));
                }
            }
            return None;
        }
        i -= 1;
    }
}

/// `str::contains`.
pub fn contains_chars(s: &Vec<char>, p: &Vec<char>) -> (r: bool)
    ensures
        r == contains(s@, p@),
{
    let mut i: usize = 0;
    loop
        invariant
            0 <= i <= s.len(),
            forall|j: int| 0 <= j < i ==> !occurs_at(s@, p@, j),
        decreases s.len() - i,
    {
        if matches_at(s, p, i) {
            return true;
        }
        if i == s.len() {
            assert forall|k: int| !occurs_at(s@, p@, k) by {
                if 0 <= k <= i {
                }
            }
            return false;
        }
        i += 1;
    }
}

/// `str::split_once`.
pub fn split_once_chars(s: &Vec<char>, p: &Vec<char>) -> (r: Option<(Vec<char>, Vec<char>)>)
    ensures
        match r {
            Some((a, b)) => split_once(s@, p@) == Some((a@, b@)),
            None => split_once(s@, p@) is None,
        },
{
    let r = find(s, p);
    match r {
        Some(i) => {
            assert(is_first_occ(s@, p@, i as int));
            let n = s.len();
            assert(i + p@.len() <= n);
            let a = chars_range(s, 0, i);
            let b = tail(s, i + p.len());
            assert(s@.subrange(0, i as int) =~= s@.take(i as int));
            Some((a, b))
        },
        None => None,
    }
}

/// `str::rsplit_once`.
pub fn rsplit_once_chars(s: &Vec<char>, p: &Vec<char>) -> (r: Option<(Vec<char>, Vec<char>)>)
    ensures
        match r {
            Some((a, b)) => rsplit_once(s@, p@) == Some((a@, b@)),
            None => rsplit_once(s@, p@) is None,
        },
{
    match rfind(s, p) {
        Some(i) => {
            let n = s.len();
            assert(i + p@.len() <= n);
            let a = chars_range(s, 0, i);
            let b = tail(s, i + p.len());
            assert(s@.subrange(0, i as int) =~= s@.take(i as int));
            Some((a, b))
        },
        None => None,
    }
}

/// `str::strip_prefix`.
pub fn strip_prefix_chars(s: &Vec<char>, p: &Vec<char>) -> (r: Option<Vec<char>>)
    ensures
        match r {
            Some(t) => strip_prefix(s@, p@) == Some(t@),
            None => strip_prefix(s@, p@) is None,
        },
{
    if starts_with(s, p) {
        Some(tail(s, p.len()))
    } else {
        None
    }
}

/// `str::strip_suffix`.
pub fn strip_suffix_chars(s: &Vec<char>, p: &Vec<char>) -> (r: Option<Vec<char>>)
    ensures
        match r {
            Some(t) => strip_suffix(s@, p@) == Some(t@),
            None => strip_suffix(s@, p@) is None,
        },
{
    if ends_with(s, p) {
        let t = chars_range(s, 0, s.len() - p.len());
        assert(s@.subrange(0, s@.len() - p@.len()) =~= s@.take(s@.len() - p@.len()));
        Some(t)
    } else {
        None
    }
}

/// `str::strip_prefix` with a literal.
pub fn strip_lit(s: &Vec<char>, lit: &str) -> (r: Option<Vec<char>>)
    ensures
        match r {
            Some(t) => strip_prefix(s@, lit@) == Some(t@),
            None => strip_prefix(s@, lit@) is None,
        },
{
    let p = chars_of(lit);
    strip_prefix_chars(s, &p)
}

/// Equality with a literal.
pub fn eq_lit(s: &Vec<char>, lit: &str) -> (r: bool)
    ensures
        r == (s@ == lit@),
{
    let p = chars_of(lit);
    chars_eq(s, &p)
}

/// Position of the first non-whitespace character at or after `from`.
pub fn skip_ws(s: &Vec<char>, from: usize) -> (r: usize)
    requires
        from <= s.len(),
    ensures
        r == from + lead_ws(s@.skip(from as int)),
        r <= s.len(),
{
    let ghost t = s@.skip(from as int);
    proof {
        lemma_lead_ws_bound(t);
    }
    let mut i = from;
    while i < s.len() && is_ws_char(s[i])
        invariant
            from <= i <= s.len(),
            t == s@.skip(from as int),
            i - from <= lead_ws(t),
        decreases s.len() - i,
    {
        proof {
            lemma_lead_ws_skip(t, i - from);
            assert(t.skip(i - from)[0] == s@[i as int]);
        }
        i += 1;
    }
    proof {
        lemma_lead_ws_skip(t, i - from);
        if i < s.len() {
            assert(t.skip(i - from)[0] == s@[i as int]);
        }
    }
    i
}

/// Position just past the non-whitespace run starting at `from`.
pub fn skip_word(s: &Vec<char>, from: usize) -> (r: usize)
    requires
        from <= s.len(),
    ensures
        r == from + lead_word(s@.skip(from as int)),
        r <= s.len(),
{
    let ghost t = s@.skip(from as int);
    proof {
        lemma_lead_word_bound(t);
    }
    let mut i = from;
    while i < s.len() && !is_ws_char(s[i])
        invariant
            from <= i <= s.len(),
            t == s@.skip(from as int),
            i - from <= lead_word(t),
        decreases s.len() - i,
    {
        proof {
            lemma_lead_word_skip(t, i - from);
            assert(t.skip(i - from)[0] == s@[i as int]);
        }
        i += 1;
    }
    proof {
        lemma_lead_word_skip(t, i - from);
        if i < s.len() {
            assert(t.skip(i - from)[0] == s@[i as int]);
        }
    }
    i
}

/// `str::split_whitespace`, collected.
pub fn split_ws(s: &Vec<char>) -> (r: Vec<Vec<char>>)
    ensures
        r@.map_values(|v: Vec<char>| v@) == ws_tokens(s@),
{
    let mut out: Vec<Vec<char>> = Vec::new();
    let mut i: usize = 0;
    assert(s@.skip(0) =~= s@);
    while i < s.len()
        invariant
            0 <= i <= s.len(),
            out@.map_values(|v: Vec<char>| v@) + ws_tokens(s@.skip(i as int)) == ws_tokens(s@),
        decreases s.len() - i,
    {
        let ghost t = s@.skip(i as int);
        let j = skip_ws(s, i);
        proof {
            lemma_lead_ws_bound(t);
            lemma_ws_tokens_skip_ws(t, j - i);
            assert(t.skip(j - i) =~= s@.skip(j as int));
        }
        if j == s.len() {
            assert(s@.skip(j as int).len() == 0);
            i = j;
        } else {
            let k = skip_word(s, j);
            let ghost u = s@.skip(j as int);
            proof {
                assert(u[0] == s@[j as int]);
                assert(!is_ws(u[0]));
                lemma_lead_word_bound(u);
                assert(u.skip((k - j) as int) =~= s@.skip(k as int));
                assert(u.take((k - j) as int) =~= s@.subrange(j as int, k as int));
                assert(ws_tokens(u) == seq![u.take((k - j) as int)] + ws_tokens(u.skip((k - j) as int)));
            }
            let w = chars_range(s, j, k);
            let ghost before = out@.map_values(|v: Vec<char>| v@);
            out.push(w);
            proof {
                assert(out@.map_values(|v: Vec<char>| v@) =~= before.push(w@));
                assert(before.push(w@) + ws_tokens(s@.skip(k as int)) =~= before + (seq![w@] + ws_tokens(s@.skip(k as int))));
            }
            i = k;
        }
    }
    proof {
        assert(s@.skip(i as int).len() == 0);
        assert(ws_tokens(s@.skip(i as int)) =~= Seq::<Seq<char>>::empty());
        assert(out@.map_values(|v: Vec<char>| v@) + Seq::<Seq<char>>::empty() =~= out@.map_values(|v: Vec<char>| v@));
    }
    out
}

/// `str::trim`.
pub fn trim_chars(s: &Vec<char>) -> (r: Vec<char>)
    ensures
        r@ == trim(s@),
{
    let lo = skip_ws(s, 0);
    assert(s@.skip(0) =~= s@);
    let ghost t = s@.skip(lo as int);
    proof {
        lemma_trail_ws_bound(t);
    }
    let mut hi = s.len();
    while hi > lo && is_ws_char(s[hi - 1])
        invariant
            lo <= hi <= s.len(),
            t == s@.skip(lo as int),
            s.len() - hi <= trail_ws(t),
        decreases hi,
    {
        proof {
            lemma_trail_ws_take(t, s.len() - hi);
            let v = t.take(t.len() - (s.len() - hi));
            assert(v.last() == s@[hi - 1]);
        }
        hi -= 1;
    }
    proof {
        lemma_trail_ws_take(t, s.len() - hi);
        let v = t.take(t.len() - (s.len() - hi));
        if hi > lo {
            assert(v.last() == s@[hi - 1]);
        } else {
            assert(v.len() == 0);
        }
        assert(t.take(t.len() - trail_ws(t)) =~= s@.subrange(lo as int, hi as int));
    }
    chars_range(s, lo, hi)
}

/// `str::parse`/`from_str_radix` for an unsigned type bounded by `max`.
pub fn parse_uint_chars(s: &Vec<char>, radix: u32, max: u64) -> (r: Option<u64>)
    requires
        2 <= radix <= 36,
    ensures
        match r {
            Some(v) => parse_uint(s@, radix as nat, max as nat) == Some(v as nat),
            None => parse_uint(s@, radix as nat, max as nat) is None,
        },
{
    let start: usize = if s.len() > 0 && s[0] == '+' {
        1
    } else {
        0
    };
    let ghost d = s@.skip(start as int);
    assert(start == 1 ==> d =~= s@.drop_first());
    assert(start == 0 ==> d =~= s@);
    if start == s.len() {
        assert(d.len() == 0);
        return None;
    }
    let mut acc: u64 = 0;
    let mut i = start;
    while i < s.len()
        invariant
            start <= i <= s.len(),
            2 <= radix <= 36,
            d == s@.skip(start as int),
            d == (if s@.len() > 0 && s@[0] == '+' { s@.drop_first() } else { s@ }),
            acc as nat == digits_val(d.take(i - start), radix as nat),
            acc <= max,
            all_digits(d.take(i - start), radix as nat),
        decreases s.len() - i,
    {
        let c = s[i];
        let dv = digit_of(c, radix);
        proof {
            assert(d[i - start] == c);
        }
        match dv {
            None => {
                proof {
                    assert(digit_value(d[i - start], radix as nat) is None);
                    assert(!all_digits(d, radix as nat));
                    assert(d.len() > 0);
                }
                return None;
            },
            Some(v) => {
                let ghost prev = d.take(i - start);
                let ghost next = d.take(i - start + 1);
                assert(next.drop_last() =~= prev);
                assert(next.last() == c);
                assert((acc as u128) * (radix as u128) <= 0xffff_ffff_ffff_ffffu128 * 36) by (nonlinear_arith)
                    requires
                        acc <= 0xffff_ffff_ffff_ffffu64,
                        radix <= 36,
                ;
                let big: u128 = (acc as u128) * (radix as u128) + (v as u128);
                assert(big == acc * radix + v) by (nonlinear_arith)
                    requires
                        acc <= 0xffff_ffff_ffff_ffffu64,
                        radix <= 36,
                        v < 36,
                        big == (acc as u128) * (radix as u128) + (v as u128),
                ;
                if big > max as u128 {
                    proof {
                        lemma_digits_mono(d, radix as nat, i - start + 1);
                        assert(digits_val(next, radix as nat) == digits_val(prev, radix as nat) * (radix as nat) + v);
                        assert(digits_val(d, radix as nat) > max);
                    }
                    return None;
                }
                acc = big as u64;
                i += 1;
                proof {
                    assert forall|j: int| 0 <= j < next.len() implies digit_value(
                        #[trigger] next[j],
                        radix as nat,
                    ).is_some() by {
                        if j < prev.len() {
                            assert(next[j] == prev[j]);
                        }
                    }
                }
            },
        }
    }
    assert(d.take(i - start) =~= d);
    Some(acc)
}

/// Digit value of a character in a radix.
pub fn digit_of(c: char, radix: u32) -> (r: Option<u32>)
    requires
        2 <= radix <= 36,
    ensures
        match r {
            Some(v) => digit_value(c, radix as nat) == Some(v as nat) && v < radix,
            None => digit_value(c, radix as nat) is None,
        },
{
    let v: u32 = if '0' <= c && c <= '9' {
        (c as u32) - ('0' as u32)
    } else if 'a' <= c && c <= 'z' {
        (c as u32) - ('a' as u32) + 10
    } else if 'A' <= c && c <= 'Z' {
        (c as u32) - ('A' as u32) + 10
    } else {
        99
    };
    if v < radix {
        Some(v)
    } else {
        None
    }
}

pub fn hex_digit(d: u8) -> (r: char)
    requires
        d < 16,
    ensures
        r == hex_char(d as nat),
{
    if d == 0 { '0' } else if d == 1 { '1' } else if d == 2 { '2' } else if d == 3 { '3' }
    else if d == 4 { '4' } else if d == 5 { '5' } else if d == 6 { '6' } else if d == 7 { '7' }
    else if d == 8 { '8' } else if d == 9 { '9' } else if d == 10 { 'a' } else if d == 11 { 'b' }
    else if d == 12 { 'c' } else if d == 13 { 'd' } else if d == 14 { 'e' } else { 'f' }
}

/// Appends the decimal rendering of `n`.
pub fn push_dec(out: &mut String, n: u64)
    ensures
        final(out)@ == old(out)@ + dec(n as nat),
    decreases n,
{
    if n >= 10 {
        push_dec(out, n / 10);
    }
    push_char(out, hex_digit((n % 10) as u8));
    proof {
        if n >= 10 {
            assert(dec(n as nat) == dec((n / 10) as nat).push(hex_char((n % 10) as nat)));
        } else {
            assert(dec(n as nat) == seq![hex_char(n as nat)]);
        }
    }
}

/// The decimal rendering of `n` as a string.
pub fn dec_string(n: u64) -> (r: String)
    ensures
        r@ == dec(n as nat),
{
    let mut out = String::new();
    push_dec(&mut out, n);
    assert(out@ =~= dec(n as nat));
    out
}

/// Appends `{:02x}` of a byte.
pub fn push_hex2(out: &mut String, b: u8)
    ensures
        final(out)@ == old(out)@ + hex2(b),
{
    push_char(out, hex_digit(b / 16));
    push_char(out, hex_digit(b % 16));
    assert(final(out)@ =~= old(out)@ + hex2(b));
}

/// Appends `{:04x}` of a 16-bit value.
pub fn push_hex4(out: &mut String, v: u16)
    ensures
        final(out)@ == old(out)@ + hex4(v),
{
    push_char(out, hex_digit((v / 4096) as u8));
    push_char(out, hex_digit(((v / 256) % 16) as u8));
    push_char(out, hex_digit(((v / 16) % 16) as u8));
    push_char(out, hex_digit((v % 16) as u8));
    assert(final(out)@ =~= old(out)@ + hex4(v));
}

/// `String::from_utf8_lossy`: the bytes decoded as UTF-8, each invalid
/// sequence replaced by U+FFFD. The contract names the result and states the
/// documented fact that valid UTF-8 is decoded unchanged.
#[verifier::external_body]
pub(crate) fn lossy_string(b: &[u8]) -> (r: String)
    ensures
        r@ == lossy_utf8(b@),
        valid_utf8(b@) ==> r@ == decode_utf8(b@),
{
    String::from_utf8_lossy(b).into_owned()
}

/// `str::to_lowercase`: the Unicode lowercase mapping of a string. The
/// contract only names the result; the mapping is not restated here.
#[verifier::external_body]
pub(crate) fn lowercase(s: &str) -> (r: String)
    ensures
        r@ == lowercase_of(s@),
{
    s.to_lowercase()
}

/// `format!("{s:?}")`: the `Debug` rendering of a string. The contract only
/// names the result; its escaping rules are not restated here.
#[verifier::external_body]
pub(crate) fn debug_string(s: &str) -> (r: String)
    ensures
        r@ == debug_text(s@),
{
    format!("{s:?}")
}

} // verus!

verus! {

// ─── Byte strings ────────────────────────────────────────────────────────────

/// `p` occurs in the byte string `s` at `i`.
pub fn bytes_match_at(s: &Vec<u8>, p: &Vec<u8>, i: usize) -> (r: bool)
    ensures
        r == occurs_at(s@, p@, i as int),
{
    if p.len() > s.len() || i > s.len() - p.len() {
        return false;
    }
    let mut k: usize = 0;
    while k < p.len()
        invariant
            i + p.len() <= s.len(),
            0 <= k <= p.len(),
            forall|j: int| 0 <= j < k ==> s@[i + j] == p@[j],
        decreases p.len() - k,
    {
        if s[i + k] != p[k] {
            assert(s@.subrange(i as int, i + p.len())[k as int] != p@[k as int]);
            return false;
        }
        k += 1;
    }
    assert(s@.subrange(i as int, i + p.len()) =~= p@);
    true
}

/// First occurrence of `p` in the byte string `s` at or after `from`.
pub fn bytes_find_from(s: &Vec<u8>, p: &Vec<u8>, from: usize) -> (r: Option<usize>)
    requires
        from <= s.len(),
    ensures
        match r {
            Some(i) => from <= i && i + p@.len() <= s@.len() && first_occ(s@.skip(from as int), p@)
                == Some(i - from),
            None => first_occ(s@.skip(from as int), p@) is None,
        },
{
    let ghost t = s@.skip(from as int);
    let mut i = from;
    loop
        invariant
            from <= i <= s.len(),
            t == s@.skip(from as int),
            forall|j: int| 0 <= j < i - from ==> !occurs_at(t, p@, j),
        decreases s.len() - i,
    {
        let m = bytes_match_at(s, p, i);
        assert(m == occurs_at(t, p@, i - from)) by {
            if occurs_at(s@, p@, i as int) {
                assert(t.subrange(i - from, i - from + p@.len()) =~= s@.subrange(
                    i as int,
                    i + p@.len(),
                ));
            }
            if occurs_at(t, p@, i - from) {
                assert(t.subrange(i - from, i - from + p@.len()) =~= s@.subrange(
                    i as int,
                    i + p@.len(),
                ));
            }
        }
        if m {
            proof {
                lemma_first_occ_unique(t, p@, i - from);
            }
            return Some(i);
        }
        if i == s.len() {
            assert forall|k: int| !is_first_occ(t, p@, k) by {
                if 0 <= k <= i - from {
                } else {
                    assert(!occurs_at(t, p@, k));
                }
            }
            return None;
        }
        i += 1;
    }
}

/// `s[lo..hi]` of a byte string, as a new vector.
pub fn bytes_range(s: &Vec<u8>, lo: usize, hi: usize) -> (r: Vec<u8>)
    requires
        lo <= hi <= s.len(),
    ensures
        r@ == s@.subrange(lo as int, hi as int),
{
    let mut out: Vec<u8> = Vec::new();
    let mut i = lo;
    while i < hi
        invariant
            lo <= i <= hi <= s.len(),
            out@ == s@.subrange(lo as int, i as int),
        decreases hi - i,
    {
        out.push(s[i]);
        i += 1;
        assert(out@ =~= s@.subrange(lo as int, i as int));
    }
    out
}

/// `s.strip_prefix(p)` on byte strings.
pub fn bytes_strip_prefix(s: &Vec<u8>, p: &Vec<u8>) -> (r: Option<Vec<u8>>)
    ensures
        match r {
            Some(t) => strip_prefix(s@, p@) == Some(t@),
            None => strip_prefix(s@, p@) is None,
        },
{
    if bytes_match_at(s, p, 0) {
        assert(s@.subrange(0, p@.len() as int) =~= s@.take(p@.len() as int));
        let t = bytes_range(s, p.len(), s.len());
        assert(s@.subrange(p@.len() as int, s@.len() as int) =~= s@.skip(p@.len() as int));
        Some(t)
    } else {
        assert(p@.len() <= s@.len() ==> s@.subrange(0, p@.len() as int) =~= s@.take(p@.len() as int));
        None
    }
}

/// Byte string equality.
pub fn bytes_eq(a: &Vec<u8>, b: &Vec<u8>) -> (r: bool)
    ensures
        r == (a@ == b@),
{
    if a.len() != b.len() {
        return false;
    }
    let r = bytes_match_at(a, b, 0);
    assert(a@.subrange(0, b@.len() as int) =~= a@);
    r
}

/// All bytes are ASCII.
pub open spec fn all_ascii(b: Seq<u8>) -> bool {
    forall|i: int| 0 <= i < b.len() ==> #[trigger] b[i] < 128
}

/// The characters of an ASCII byte string.
pub open spec fn ascii_chars(b: Seq<u8>) -> Seq<char> {
    b.map_values(|x: u8| x as char)
}

/// The characters of a byte string, if it is all ASCII.
pub fn ascii_to_chars(b: &Vec<u8>) -> (r: Option<Vec<char>>)
    ensures
        match r {
            Some(cs) => all_ascii(b@) && cs@ == ascii_chars(b@),
            None => !all_ascii(b@),
        },
{
    let mut out: Vec<char> = Vec::new();
    let mut i: usize = 0;
    while i < b.len()
        invariant
            0 <= i <= b.len(),
            out@ == ascii_chars(b@.take(i as int)),
            all_ascii(b@.take(i as int)),
        decreases b.len() - i,
    {
        let x = b[i];
        if x >= 128 {
            assert(!all_ascii(b@)) by {
                assert(b@[i as int] >= 128);
            }
            return None;
        }
        out.push(x as char);
        i += 1;
        assert(out@ =~= ascii_chars(b@.take(i as int)));
        assert(all_ascii(b@.take(i as int))) by {
            assert forall|j: int| 0 <= j < i implies #[trigger] b@.take(i as int)[j] < 128 by {
                if j < i - 1 {
                    assert(b@.take(i as int)[j] == b@.take(i - 1)[j]);
                }
            }
        }
    }
    assert(b@.take(i as int) =~= b@);
    Some(out)
}

} // verus!
