//! Pure decisions of the script runner.
//!
//! ## End of a command and its exit code (POSIX shells)
//!
//! After the last `send`, the runner injects a marker unique to the step:
//!
//! ```text
//! printf '\n__RUSTTY_END_<run_id>_<step>_%d__\n' "$?"
//! ```
//!
//! and reads the output until the marker line shows up **with the exit code
//! already expanded** (`..._0__`). The echo of the command itself carries a
//! literal `%d` (no digits), so it is never taken for the real output.
use vstd::prelude::*;
use crate::scripts::types::Step;
use crate::text::{
    chars_of, dec, digits_val, has_prefix, is_alnum_char, is_ascii_alnum, is_ascii_digit,
    is_digit_char, occurs_at, push_chars, push_dec, push_str, string_of,
};

verus! {

// ─── End-of-command marker ───────────────────────────────────────────────────

/// The ASCII letters and digits of a string, in order.
pub open spec fn keep_alnum(s: Seq<char>) -> Seq<char>
    decreases s.len(),
{
    if s.len() == 0 {
        seq![]
    } else if is_ascii_alnum(s.last()) {
        keep_alnum(s.drop_last()).push(s.last())
    } else {
        keep_alnum(s.drop_last())
    }
}

/// Reduces a string to ASCII letters and digits: makes the run id a safe
/// token to embed in the marker and in the `printf`.
pub fn sanitize_token(s: &str) -> (r: String)
    ensures
        r@ == keep_alnum(s@),
{
    let cs = chars_of(s);
    let mut out: Vec<char> = Vec::new();
    let mut i: usize = 0;
    assert(cs@.take(0) =~= Seq::<char>::empty());
    while i < cs.len()
        invariant
            i <= cs@.len(),
            out@ == keep_alnum(cs@.take(i as int)),
        decreases cs.len() - i,
    {
        let c = cs[i];
        assert(cs@.take(i + 1).drop_last() =~= cs@.take(i as int));
        assert(cs@.take(i + 1).last() == c);
        if is_alnum_char(c) {
            out.push(c);
        }
        i += 1;
    }
    assert(cs@.take(i as int) =~= cs@);
    string_of(&out)
}

pub open spec fn marker_prefix_spec(run_id: Seq<char>, step_index: nat) -> Seq<char> {
    "__RUSTTY_END_"@ + keep_alnum(run_id) + "_"@ + dec(step_index) + "_"@
}

/// Prefix of a step's marker, up to the `_` before the exit code:
/// `__RUSTTY_END_<run>_<step>_`. Unique per (run, step).
pub fn marker_prefix(run_id: &str, step_index: usize) -> (r: String)
    ensures
        r@ == marker_prefix_spec(run_id@, step_index as nat),
        r@.len() > 0,
{
    proof {
        reveal_strlit("_");
    }
    let tok = sanitize_token(run_id);
    let mut out = String::new();
    push_str(&mut out, "__RUSTTY_END_");
    push_str(&mut out, tok.as_str());
    push_str(&mut out, "_");
    push_dec(&mut out, step_index as u64);
    push_str(&mut out, "_");
    assert(out@ =~= marker_prefix_spec(run_id@, step_index as nat));
    out
}

/// Distance from `i` to the first occurrence of `p` at or after it.
pub open spec fn occ_from(s: Seq<char>, p: Seq<char>, i: int) -> Option<nat>
    decreases s.len() - i,
{
    if i < 0 || i >= s.len() || i + p.len() > s.len() {
        None
    } else if occurs_at(s, p, i) {
        Some(0)
    } else {
        match occ_from(s, p, i + 1) {
            Some(d) => Some(d + 1),
            None => None,
        }
    }
}

/// Number of ASCII digits starting at `i`.
pub open spec fn digit_count(s: Seq<char>, i: int) -> nat
    decreases s.len() - i,
{
    if 0 <= i < s.len() && is_ascii_digit(s[i]) {
        1 + digit_count(s, i + 1)
    } else {
        0
    }
}

/// The exit code of the marker that ends at `start` (its digits then `__`),
/// if it is a valid one.
pub open spec fn code_at(s: Seq<char>, start: int) -> Option<i32> {
    let d = digit_count(s, start);
    if d > 0 && has_prefix(s.skip(start + d), "__"@) && digits_val(s.subrange(start, start + d), 10) <= 0x7fff_ffff {
        Some(digits_val(s.subrange(start, start + d), 10) as i32)
    } else {
        None
    }
}

/// Walks the occurrences of `p` from `from` on, keeping the exit code of the
/// last valid marker.
pub open spec fn marker_scan(s: Seq<char>, p: Seq<char>, from: int, acc: Option<i32>) -> Option<i32>
    decreases (if from < s.len() { s.len() - from } else { 0 }),
{
    if p.len() == 0 || from < 0 || from >= s.len() {
        acc
    } else {
        match occ_from(s, p, from) {
            None => acc,
            Some(rel) => {
                let start = from + rel + p.len();
                marker_scan(
                    s,
                    p,
                    start,
                    match code_at(s, start) {
                        Some(c) => Some(c),
                        None => acc,
                    },
                )
            },
        }
    }
}

fn digits_from(cs: &Vec<char>, start: usize) -> (r: usize)
    requires
        start <= cs@.len(),
    ensures
        r == digit_count(cs@, start as int),
        start + r <= cs@.len(),
        forall|k: int| start <= k < start + r ==> is_ascii_digit(#[trigger] cs@[k]),
{
    let mut i = start;
    while i < cs.len() && is_digit_char(cs[i])
        invariant
            start <= i <= cs@.len(),
            digit_count(cs@, start as int) == (i - start) + digit_count(cs@, i as int),
            forall|k: int| start <= k < i ==> is_ascii_digit(#[trigger] cs@[k]),
        decreases cs.len() - i,
    {
        i += 1;
    }
    i - start
}

fn code_at_exec(cs: &Vec<char>, start: usize) -> (r: Option<i32>)
    requires
        start <= cs@.len(),
    ensures
        r == code_at(cs@, start as int),
{
    let d = digits_from(cs, start);
    if d == 0 {
        return None;
    }
    let under: Vec<char> = vec!['_', '_'];
    proof {
        reveal_strlit("__");
    }
    assert(under@ =~= "__"@);
    let n = cs.len();
    assert(start + d <= n);
    let rest = crate::text::tail(cs, start + d);
    if !crate::text::starts_with(&rest, &under) {
        return None;
    }
    let digits = crate::text::chars_range(cs, start, start + d);
    match crate::text::parse_uint_chars(&digits, 10, 0x7fff_ffff) {
        Some(v) => {
            proof {
                assert(crate::text::all_digits(digits@, 10)) by {
                    assert forall|k: int| 0 <= k < digits@.len() implies crate::text::digit_value(
                        #[trigger] digits@[k],
                        10,
                    ).is_some() by {
                        assert(digits@[k] == cs@[start + k]);
                    }
                }
                assert(digits@.len() == 0 || digits@[0] != '+') by {
                    if digits@.len() > 0 {
                        assert(digits@[0] == cs@[start as int]);
                    }
                }
            }
            Some(v as i32)
        },
        None => {
            proof {
                assert(crate::text::all_digits(digits@, 10)) by {
                    assert forall|k: int| 0 <= k < digits@.len() implies crate::text::digit_value(
                        #[trigger] digits@[k],
                        10,
                    ).is_some() by {
                        assert(digits@[k] == cs@[start + k]);
                    }
                }
                assert(digits@[0] == cs@[start as int]);
            }
            None
        },
    }
}

/// The exit code of the LAST valid marker in `buf` (prefix, digits, `__`).
/// The echo of the command, with `%d` in place of digits, is ignored.
pub fn parse_marker_exit(buf: &str, prefix: &str) -> (r: Option<i32>)
    requires
        prefix@.len() > 0,
    ensures
        r == marker_scan(buf@, prefix@, 0, None),
{
    let cs = chars_of(buf);
    let p = chars_of(prefix);
    let mut result: Option<i32> = None;
    let mut from: usize = 0;
    loop
        invariant
            from <= cs@.len(),
            p@.len() > 0,
            cs@ == buf@,
            p@ == prefix@,
            marker_scan(cs@, p@, 0, None) == marker_scan(cs@, p@, from as int, result),
        decreases cs.len() - from,
    {
        if from >= cs.len() {
            return result;
        }
        match occ_from_exec(&cs, &p, from) {
            None => {
                return result;
            },
            Some(at) => {
                proof {
                    lemma_occ_from_bound(cs@, p@, from as int);
                }
                let start = at + p.len();
                let code = code_at_exec(&cs, start);
                match code {
                    Some(c) => {
                        result = Some(c);
                    },
                    None => {},
                }
                from = start;
            },
        }
    }
}

proof fn lemma_occ_from_bound(s: Seq<char>, p: Seq<char>, i: int)
    ensures
        occ_from(s, p, i) matches Some(d) ==> 0 <= i && i + d + p.len() <= s.len(),
    decreases s.len() - i,
{
    if 0 <= i && i < s.len() && i + p.len() <= s.len() && !occurs_at(s, p, i) {
        lemma_occ_from_bound(s, p, i + 1);
    }
}

/// Position of the first occurrence of `p` at or after `from`.
fn occ_from_exec(cs: &Vec<char>, p: &Vec<char>, from: usize) -> (r: Option<usize>)
    requires
        from <= cs@.len(),
        p@.len() > 0,
    ensures
        match r {
            Some(at) => from <= at && occ_from(cs@, p@, from as int) == Some((at - from) as nat),
            None => occ_from(cs@, p@, from as int) is None,
        },
{
    let mut i = from;
    while p.len() <= cs.len() && i <= cs.len() - p.len()
        invariant
            from <= i <= cs@.len(),
            p@.len() > 0,
            occ_from(cs@, p@, from as int) == (match occ_from(cs@, p@, i as int) {
                Some(d) => Some((d + (i - from)) as nat),
                None => None::<nat>,
            }),
        decreases cs.len() - i,
    {
        if crate::text::matches_at(cs, p, i) {
            return Some(i);
        }
        i += 1;
    }
    None
}

// ─── Steps ───────────────────────────────────────────────────────────────────

/// Whether output is still pending from position `i` on: a send without a
/// later wait leaves output nobody reads; a `Disconnect` ends the run.
pub open spec fn drain_from(steps: Seq<Step>, i: int, pending: bool) -> bool
    decreases steps.len() - i,
{
    if i < 0 || i >= steps.len() {
        pending
    } else {
        match steps[i] {
            Step::Send { .. } | Step::SendPasswordFromKeyring { .. } | Step::SendPasswordFromKeepass { .. } =>
                drain_from(steps, i + 1, true),
            Step::WaitPrompt | Step::WaitRegex { .. } => drain_from(steps, i + 1, false),
            Step::Disconnect => false,
            _ => drain_from(steps, i + 1, pending),
        }
    }
}

/// `true` if the recipe ends with sends whose output nobody would read: a
/// send with no later `WaitPrompt`/`WaitRegex`. The runner then adds an
/// implicit final drain. A `Disconnect` ends the run, so it cancels the
/// drain.
pub fn needs_final_drain(steps: &[Step]) -> (r: bool)
    ensures
        r == drain_from(steps@, 0, false),
{
    let mut pending = false;
    let mut i: usize = 0;
    while i < steps.len()
        invariant
            i <= steps@.len(),
            drain_from(steps@, 0, false) == drain_from(steps@, i as int, pending),
        decreases steps.len() - i,
    {
        match &steps[i] {
            Step::Send { .. } | Step::SendPasswordFromKeyring { .. } | Step::SendPasswordFromKeepass { .. } => {
                pending = true;
            },
            Step::WaitPrompt | Step::WaitRegex { .. } => {
                pending = false;
            },
            Step::Disconnect => {
                return false;
            },
            Step::ExpectExit { .. } | Step::Sleep { .. } => {},
        }
        i += 1;
    }
    pending
}

pub open spec fn phase_of(step: Step) -> Seq<char> {
    match step {
        Step::WaitPrompt | Step::WaitRegex { .. } | Step::Sleep { .. } => "waiting"@,
        _ => "running"@,
    }
}

/// The phase a step shows in the progress events.
pub fn step_phase(step: &Step) -> (r: &'static str)
    ensures
        r@ == phase_of(*step),
{
    match step {
        Step::WaitPrompt | Step::WaitRegex { .. } | Step::Sleep { .. } => "waiting",
        _ => "running",
    }
}

// ─── Laws ────────────────────────────────────────────────────────────────────

/// A marker prefix names its step: two steps of one run never share one.
pub proof fn lemma_marker_prefix_unique_per_step(run_id: Seq<char>, a: nat, b: nat)
    requires
        marker_prefix_spec(run_id, a) == marker_prefix_spec(run_id, b),
    ensures
        a == b,
{
    reveal_strlit("__RUSTTY_END_");
    reveal_strlit("_");
    let k: int = 13 + keep_alnum(run_id).len() as int + 1;
    let pa = marker_prefix_spec(run_id, a);
    let pb = marker_prefix_spec(run_id, b);
    assert(pa.subrange(k, pa.len() - 1) =~= dec(a));
    assert(pb.subrange(k, pb.len() - 1) =~= dec(b));
    crate::tmux::manager::lemma_dec_injective(a, b);
}

/// The sanitised run id holds only ASCII letters and digits, so it can
/// never break out of the `printf` it is pasted in.
pub proof fn lemma_sanitized_is_alnum(s: Seq<char>)
    ensures
        forall|i: int| 0 <= i < keep_alnum(s).len() ==> is_ascii_alnum(#[trigger] keep_alnum(s)[i]),
    decreases s.len(),
{
    if s.len() > 0 {
        lemma_sanitized_is_alnum(s.drop_last());
        let d = keep_alnum(s.drop_last());
        if is_ascii_alnum(s.last()) {
            assert forall|i: int| 0 <= i < d.push(s.last()).len() implies is_ascii_alnum(#[trigger] d.push(s.last())[i]) by {
                if i < d.len() {
                    assert(d.push(s.last())[i] == d[i]);
                }
            }
        }
    }
}


// ─── Waiting on a host's output ──────────────────────────────────────────────

/// How a read of a host's output ended.
#[derive(Debug, Clone, Copy, PartialEq, Eq, Structural)]
pub enum PumpOutcome {
    /// The awaited text arrived.
    Matched,
    /// The channel closed.
    Eof,
    /// The deadline passed.
    Timeout,
    /// The run or the host was aborted.
    Cancelled,
}

pub open spec fn marker_command_spec(run_id: Seq<char>, step_index: nat) -> Seq<char> {
    "printf '\\n"@ + marker_prefix_spec(run_id, step_index) + "%d__\\n' \"$?\""@
}

/// The command that prints the end-of-command marker with the exit code of
/// the last command (`$?`), on a line of its own.
pub fn marker_command(run_id: &str, step_index: usize) -> (r: String)
    ensures
        r@ == marker_command_spec(run_id@, step_index as nat),
{
    let prefix = marker_prefix(run_id, step_index);
    let mut cmd = String::new();
    push_str(&mut cmd, "printf '\\n");
    push_str(&mut cmd, prefix.as_str());
    push_str(&mut cmd, "%d__\\n' \"$?\"");
    cmd
}

pub open spec fn msg_cancelled() -> Seq<char> {
    "Ejecución cancelada"@
}

fn owned(s: &str) -> (r: String)
    ensures
        r@ == s@,
{
    let mut m = String::new();
    push_str(&mut m, s);
    m
}

/// The exit code a `waitPrompt` step ends with, given how the read ended
/// and what was read.
pub fn wait_prompt_result(outcome: PumpOutcome, acc: &str, run_id: &str, step_index: usize) -> (r: Result<i32, String>)
    ensures
        match outcome {
            PumpOutcome::Matched => match marker_scan(acc@, marker_prefix_spec(run_id@, step_index as nat), 0, None) {
                Some(c) => r == Ok::<i32, String>(c),
                None => r matches Err(e) && e@ == "No se pudo leer el exit code del marcador"@,
            },
            PumpOutcome::Eof => r matches Err(e) && e@ == "La conexión se cerró antes de completar el comando"@,
            PumpOutcome::Timeout => r matches Err(e) && e@ == "Tiempo de espera agotado esperando el fin del comando"@,
            PumpOutcome::Cancelled => r matches Err(e) && e@ == msg_cancelled(),
        },
{
    match outcome {
        PumpOutcome::Matched => match parse_marker_exit(acc, marker_prefix(run_id, step_index).as_str()) {
            Some(c) => Ok(c),
            None => Err(owned("No se pudo leer el exit code del marcador")),
        },
        PumpOutcome::Eof => Err(owned("La conexión se cerró antes de completar el comando")),
        PumpOutcome::Timeout => Err(owned("Tiempo de espera agotado esperando el fin del comando")),
        PumpOutcome::Cancelled => Err(owned("Ejecución cancelada")),
    }
}

/// The exit code of the final drain after the last step: a closed channel
/// is no error there (the code is then unknown).
pub fn final_drain_result(outcome: PumpOutcome, acc: &str, run_id: &str, step_index: usize) -> (r: Result<Option<i32>, String>)
    ensures
        match outcome {
            PumpOutcome::Matched => r == Ok::<Option<i32>, String>(marker_scan(acc@, marker_prefix_spec(run_id@, step_index as nat), 0, None)),
            PumpOutcome::Eof => r == Ok::<Option<i32>, String>(None),
            PumpOutcome::Timeout => r matches Err(e) && e@
                == "Tiempo de espera agotado esperando el fin del último comando"@,
            PumpOutcome::Cancelled => r matches Err(e) && e@ == msg_cancelled(),
        },
{
    match outcome {
        PumpOutcome::Matched => Ok(parse_marker_exit(acc, marker_prefix(run_id, step_index).as_str())),
        PumpOutcome::Eof => Ok(None),
        PumpOutcome::Timeout => Err(owned("Tiempo de espera agotado esperando el fin del último comando")),
        PumpOutcome::Cancelled => Err(owned("Ejecución cancelada")),
    }
}

// ─── `waitRegex` steps ───────────────────────────────────────────────────────

/// `regex::Regex::new` on a pattern: `None` when it compiles, else the
/// crate's error text.
pub uninterp spec fn regex_error_of(pattern: Seq<char>) -> Option<Seq<char>>;

/// `regex::Regex::is_match`: the compiled pattern matches somewhere in the
/// text.
pub uninterp spec fn regex_matches_of(pattern: Seq<char>, text: Seq<char>) -> bool;

/// `regex::Regex::new(pattern)` and, when it compiles, `is_match(text)`;
/// otherwise the error's text. Both are functions of their arguments (the
/// compiled-size limit is the crate's default on every call).
#[verifier::external_body]
fn regex_is_match(pattern: &str, text: &str) -> (r: Result<bool, String>)
    ensures
        match r {
            Ok(b) => regex_error_of(pattern@) is None && b == regex_matches_of(pattern@, text@),
            Err(e) => regex_error_of(pattern@) == Some(e@),
        },
{
    regex::Regex::new(pattern).map(|re| re.is_match(text)).map_err(|e| e.to_string())
}

pub open spec fn msg_bad_regex(e: Seq<char>) -> Seq<char> {
    "Patrón regex inválido: "@ + e
}

/// Whether the output read so far ends a `waitRegex` step: the pattern
/// matches it. A pattern that does not compile is the step's error.
pub fn regex_wait_matches(pattern: &str, output: &str) -> (r: Result<bool, String>)
    ensures
        match regex_error_of(pattern@) {
            Some(e) => r matches Err(m) && m@ == msg_bad_regex(e),
            None => r == Ok::<bool, String>(regex_matches_of(pattern@, output@)),
        },
{
    match regex_is_match(pattern, output) {
        Ok(b) => Ok(b),
        Err(e) => {
            let mut m = String::new();
            push_str(&mut m, "Patrón regex inválido: ");
            push_str(&mut m, e.as_str());
            Err(m)
        },
    }
}

/// The check a `waitRegex` step makes before reading anything: its pattern
/// must compile.
pub fn check_wait_regex(pattern: &str) -> (r: Result<(), String>)
    ensures
        match regex_error_of(pattern@) {
            Some(e) => r matches Err(m) && m@ == msg_bad_regex(e),
            None => r is Ok,
        },
{
    match regex_wait_matches(pattern, "") {
        Ok(_) => Ok(()),
        Err(m) => Err(m),
    }
}

/// A `waitRegex` step, given how the read of the output ended: a pattern
/// that does not compile fails the step before anything is read; otherwise
/// the step ends as the read did.
pub fn wait_regex(pattern: &str, outcome: PumpOutcome, timeout_ms: u64) -> (r: Result<(), String>)
    ensures
        match regex_error_of(pattern@) {
            Some(e) => r matches Err(m) && m@ == msg_bad_regex(e),
            None => wait_regex_ends(outcome, timeout_ms, r),
        },
{
    match check_wait_regex(pattern) {
        Err(m) => Err(m),
        Ok(()) => wait_regex_result(outcome, timeout_ms),
    }
}

/// How a `waitRegex` step ends after the read ended with `outcome`.
pub open spec fn wait_regex_ends(outcome: PumpOutcome, timeout_ms: u64, r: Result<(), String>) -> bool {
    match outcome {
        PumpOutcome::Matched => r is Ok,
        PumpOutcome::Eof => r matches Err(e) && e@ == "La conexión se cerró antes de que la salida casara el patrón"@,
        PumpOutcome::Timeout => r matches Err(e) && e@ == "Tiempo de espera agotado ("@ + dec(timeout_ms as nat)
            + " ms) esperando el patrón regex"@,
        PumpOutcome::Cancelled => r matches Err(e) && e@ == msg_cancelled(),
    }
}

/// How a `waitRegex` step ends.
pub fn wait_regex_result(outcome: PumpOutcome, timeout_ms: u64) -> (r: Result<(), String>)
    ensures
        wait_regex_ends(outcome, timeout_ms, r),
{
    match outcome {
        PumpOutcome::Matched => Ok(()),
        PumpOutcome::Eof => Err(owned("La conexión se cerró antes de que la salida casara el patrón")),
        PumpOutcome::Timeout => {
            let mut m = String::new();
            push_str(&mut m, "Tiempo de espera agotado (");
            push_dec(&mut m, timeout_ms);
            push_str(&mut m, " ms) esperando el patrón regex");
            Err(m)
        },
        PumpOutcome::Cancelled => Err(owned("Ejecución cancelada")),
    }
}

/// An `expectExit` step: the exit code captured by the last `waitPrompt`
/// must be `code`.
pub fn expect_exit(last_exit: Option<i32>, code: i32) -> (r: Result<(), String>)
    ensures
        match last_exit {
            Some(a) => if a == code {
                r is Ok
            } else {
                r matches Err(e) && e@ == "Se esperaba exit code "@ + int_text(code as int)
                    + " pero fue "@ + int_text(a as int)
            },
            None => r matches Err(e) && e@ == "expectExit sin un waitPrompt previo que capturara el exit code"@,
        },
{
    match last_exit {
        Some(a) => {
            if a == code {
                Ok(())
            } else {
                let mut m = String::new();
                push_str(&mut m, "Se esperaba exit code ");
                push_int(&mut m, code);
                push_str(&mut m, " pero fue ");
                push_int(&mut m, a);
                Err(m)
            }
        },
        None => Err(owned("expectExit sin un waitPrompt previo que capturara el exit code")),
    }
}

/// Decimal text of an integer, with `-` when negative.
pub open spec fn int_text(v: int) -> Seq<char> {
    if v < 0 {
        seq!['-'] + dec((-v) as nat)
    } else {
        dec(v as nat)
    }
}

fn push_int(out: &mut String, v: i32)
    ensures
        final(out)@ == old(out)@ + int_text(v as int),
{
    if v < 0 {
        crate::text::push_char(out, '-');
        let m: u64 = (0 - (v as i64)) as u64;
        push_dec(out, m);
    } else {
        push_dec(out, v as u64);
    }
}

/// Adds a value sent as a secret to the redaction list, once; an empty value
/// hides nothing and is not kept.
pub fn remember_secret(secrets: &mut Vec<String>, secret: String)
    ensures
        if secret@.len() > 0 && !old(secrets)@.map_values(|s: String| s@).contains(secret@) {
            final(secrets)@ == old(secrets)@.push(secret)
        } else {
            final(secrets)@ == old(secrets)@
        },
{
    if chars_of(secret.as_str()).len() == 0 {
        return;
    }
    let ghost m = secrets@.map_values(|s: String| s@);
    let mut i: usize = 0;
    while i < secrets.len()
        invariant
            i <= secrets@.len(),
            m == secrets@.map_values(|s: String| s@),
            forall|k: int| 0 <= k < i ==> m[k] != secret@,
        decreases secrets.len() - i,
    {
        if crate::text::str_eq(secrets[i].as_str(), secret.as_str()) {
            assert(m[i as int] == secret@);
            return;
        }
        i += 1;
    }
    proof {
        assert(!m.contains(secret@)) by {
            if m.contains(secret@) {
                let k = choose|k: int| 0 <= k < m.len() && m[k] == secret@;
                assert(m[k] != secret@);
            }
        }
    }
    secrets.push(secret);
}


// ─── Lines of output ─────────────────────────────────────────────────────────

/// A line is hidden when it carries the sentinel (the end-of-command marker).
pub open spec fn line_hidden(line: Seq<char>, sentinel: Option<Seq<char>>) -> bool {
    match sentinel {
        Some(p) => crate::text::contains(line, p),
        None => false,
    }
}

/// The complete lines (each with its `\n`) at the start of `t`, less the
/// hidden ones, and how many characters those complete lines take.
pub open spec fn shown_lines(t: Seq<char>, sentinel: Option<Seq<char>>) -> (Seq<Seq<char>>, nat)
    decreases t.len(),
{
    match crate::text::first_occ(t, seq!['\n']) {
        Some(k) => if 0 <= k < t.len() {
            let line = t.take(k + 1);
            let rest = shown_lines(t.skip(k + 1), sentinel);
            (if line_hidden(line, sentinel) {
                rest.0
            } else {
                seq![line] + rest.0
            }, (k + 1 + rest.1) as nat)
        } else {
            (seq![], 0)
        },
        None => (seq![], 0),
    }
}

/// The lines of `acc` completed since character `emitted` that are to be
/// shown, and where the next unfinished line starts.
pub fn new_lines(acc: &str, emitted: usize, sentinel: Option<&str>) -> (r: (Vec<String>, usize))
    requires
        emitted <= acc@.len(),
    ensures
        ({
            let sl = shown_lines(
                acc@.skip(emitted as int),
                match sentinel {
                    Some(p) => Some(p@),
                    None => None,
                },
            );
            &&& r.0@.map_values(|l: String| l@) == sl.0
            &&& r.1 == emitted + sl.1
        }),
{
    let cs = chars_of(acc);
    let ghost sent = match sentinel {
        Some(p) => Some(p@),
        None => None::<Seq<char>>,
    };
    let sc: Option<Vec<char>> = match sentinel {
        Some(p) => Some(chars_of(p)),
        None => None,
    };
    let nl: Vec<char> = vec!['\n'];
    assert(nl@ =~= seq!['\n']);
    let mut out: Vec<String> = Vec::new();
    let mut pos: usize = emitted;
    let n = cs.len();
    let ghost whole = shown_lines(cs@.skip(emitted as int), sent);
    loop
        invariant
            emitted <= pos <= cs@.len(),
            n == cs@.len(),
            cs@ == acc@,
            nl@ == seq!['\n'],
            sent == (match sentinel {
                Some(p) => Some(p@),
                None => None::<Seq<char>>,
            }),
            match sc {
                Some(v) => sent == Some(v@),
                None => sent is None,
            },
            whole == shown_lines(cs@.skip(emitted as int), sent),
            out@.map_values(|l: String| l@) + shown_lines(cs@.skip(pos as int), sent).0 == whole.0,
            pos + shown_lines(cs@.skip(pos as int), sent).1 == emitted + whole.1,
        ensures
            out@.map_values(|l: String| l@) == whole.0,
            pos == emitted + whole.1,
            pos <= cs@.len(),
        decreases cs@.len() - pos,
    {
        let ghost t = cs@.skip(pos as int);
        match crate::text::find_from(&cs, &nl, pos) {
            None => {
                assert(shown_lines(t, sent).0 =~= Seq::<Seq<char>>::empty());
                assert(out@.map_values(|l: String| l@) =~= whole.0);
                break;
            },
            Some(e) => {
                proof {
                    crate::text::lemma_first_occ_unique(t, seq!['\n'], e - pos);
                    assert(e < n);
                    assert(t.skip(e - pos + 1) =~= cs@.skip(e + 1));
                }
                let line = crate::text::chars_range(&cs, pos, e + 1);
                assert(line@ =~= t.take(e - pos + 1));
                let hidden = match &sc {
                    Some(p) => crate::text::contains_chars(&line, p),
                    None => false,
                };
                let ghost before = out@.map_values(|l: String| l@);
                if !hidden {
                    out.push(string_of(&line));
                    assert(out@.map_values(|l: String| l@) =~= before.push(line@));
                }
                proof {
                    let rest = shown_lines(cs@.skip(e + 1), sent);
                    if !hidden {
                        assert(before.push(line@) + rest.0 =~= before + (seq![line@] + rest.0));
                    }
                }
                pos = e + 1;
            },
        }
    }
    (out, pos)
}

/// What is left of the output after the last complete line, worth showing
/// when the channel closed: not blank and not the marker.
pub fn leftover_tail(acc: &str, emitted: usize, prefix: &str) -> (r: Option<String>)
    requires
        emitted <= acc@.len(),
    ensures
        ({
            let tail = acc@.skip(emitted as int);
            if crate::text::trim(tail).len() > 0 && !crate::text::contains(tail, prefix@) {
                r matches Some(t) && t@ == tail
            } else {
                r is None
            }
        }),
{
    let cs = chars_of(acc);
    let tail = crate::text::tail(&cs, emitted);
    let p = chars_of(prefix);
    if crate::text::trim_chars(&tail).len() > 0 && !crate::text::contains_chars(&tail, &p) {
        Some(string_of(&tail))
    } else {
        None
    }
}

} // verus!
