//! Incremental parser of the tmux *control mode* stream.
//!
//! In control mode the channel carries a line protocol: `%name args…`
//! notifications and `%begin … %end`/`%error` response blocks. Pane output
//! travels in `%output %<pane> <bytes>`, with `\` and every byte below ASCII 32
//! escaped in octal and bytes ≥ 128 sent raw, so the payload is kept as bytes.
//!
//! `feed` tolerates lines split across reads (the unterminated rest waits for
//! the next call) and unknown notifications (an `Unknown` event, never a
//! panic).
use vstd::prelude::*;
use crate::text::{
    all_ascii, ascii_chars, ascii_to_chars, bytes_eq, bytes_find_from, bytes_range,
    bytes_strip_prefix, chars_of, eq_lit, first_occ, has_prefix, lossy_string, lossy_utf8,
    parse_uint, parse_uint_chars, push_char, push_chars, split_once, split_once_chars, split_ws,
    string_of, strip_lit, strip_prefix, strip_prefix_chars, ws_token, ws_tokens,
};

verus! {

/// Largest pending line kept without a `\n`; beyond it the stream is treated
/// as desynchronised and the pending bytes are reported as `Unknown`.
pub const MAX_PENDING_LINE: usize = 16777216;

/// A parsed event of the control stream.
#[derive(Debug, Clone, PartialEq, Eq)]
pub enum ControlEvent {
    /// A complete `%begin`…`%end`/`%error` block; `success` = closed by `%end`.
    /// `flags` is the third field of the guard (bit 1 marks replies to this
    /// client's own commands).
    CommandResponse { number: u64, flags: u64, success: bool, output: String },
    /// `%output %<pane> <bytes>`, payload already unescaped.
    Output { pane: u64, bytes: Vec<u8> },
    /// `%extended-output %<pane> <age> … : <bytes>`.
    ExtendedOutput { pane: u64, bytes: Vec<u8> },
    /// `%layout-change @<win> <layout> [<visible-layout> [<flags>]]`.
    LayoutChange {
        window: u64,
        layout: String,
        visible_layout: Option<String>,
        flags: Option<String>,
    },
    WindowAdd { window: u64 },
    WindowClose { window: u64 },
    WindowRenamed { window: u64, name: String },
    /// `%window-pane-changed @<win> %<pane>`: the active pane changed.
    WindowPaneChanged { window: u64, pane: u64 },
    UnlinkedWindowAdd { window: u64 },
    UnlinkedWindowClose { window: u64 },
    UnlinkedWindowRenamed { window: u64, name: String },
    SessionChanged { session: u64, name: String },
    SessionRenamed { name: String },
    SessionsChanged,
    SessionWindowChanged { session: u64, window: u64 },
    PaneModeChanged { pane: u64 },
    ClientSessionChanged { client: String, session: u64, name: String },
    /// `%subscription-changed <name> … : <value>`.
    SubscriptionChanged { name: String, value: String },
    /// `%pause %<pane>` / `%continue %<pane>`: flow control.
    Pause { pane: u64 },
    Continue { pane: u64 },
    /// `%exit [reason]`: nothing may be written to the channel afterwards.
    Exit { reason: Option<String> },
    /// A line that was not understood, kept for diagnostics.
    Unknown { line: String },
}

/// Mathematical value of a `ControlEvent`: strings as character sequences,
/// payloads as byte sequences.
pub enum EventV {
    CommandResponse { number: u64, flags: u64, success: bool, output: Seq<char> },
    Output { pane: u64, bytes: Seq<u8> },
    ExtendedOutput { pane: u64, bytes: Seq<u8> },
    LayoutChange {
        window: u64,
        layout: Seq<char>,
        visible_layout: Option<Seq<char>>,
        flags: Option<Seq<char>>,
    },
    WindowAdd { window: u64 },
    WindowClose { window: u64 },
    WindowRenamed { window: u64, name: Seq<char> },
    WindowPaneChanged { window: u64, pane: u64 },
    UnlinkedWindowAdd { window: u64 },
    UnlinkedWindowClose { window: u64 },
    UnlinkedWindowRenamed { window: u64, name: Seq<char> },
    SessionChanged { session: u64, name: Seq<char> },
    SessionRenamed { name: Seq<char> },
    SessionsChanged,
    SessionWindowChanged { session: u64, window: u64 },
    PaneModeChanged { pane: u64 },
    ClientSessionChanged { client: Seq<char>, session: u64, name: Seq<char> },
    SubscriptionChanged { name: Seq<char>, value: Seq<char> },
    Pause { pane: u64 },
    Continue { pane: u64 },
    Exit { reason: Option<Seq<char>> },
    Unknown { line: Seq<char> },
}

pub open spec fn opt_view(o: Option<String>) -> Option<Seq<char>> {
    match o {
        Some(s) => Some(s@),
        None => None,
    }
}

impl View for ControlEvent {
    type V = EventV;

    open spec fn view(&self) -> EventV {
        match self {
            ControlEvent::CommandResponse { number, flags, success, output } =>
                EventV::CommandResponse { number: *number, flags: *flags, success: *success, output: output@ },
            ControlEvent::Output { pane, bytes } => EventV::Output { pane: *pane, bytes: bytes@ },
            ControlEvent::ExtendedOutput { pane, bytes } =>
                EventV::ExtendedOutput { pane: *pane, bytes: bytes@ },
            ControlEvent::LayoutChange { window, layout, visible_layout, flags } =>
                EventV::LayoutChange {
                    window: *window,
                    layout: layout@,
                    visible_layout: opt_view(*visible_layout),
                    flags: opt_view(*flags),
                },
            ControlEvent::WindowAdd { window } => EventV::WindowAdd { window: *window },
            ControlEvent::WindowClose { window } => EventV::WindowClose { window: *window },
            ControlEvent::WindowRenamed { window, name } =>
                EventV::WindowRenamed { window: *window, name: name@ },
            ControlEvent::WindowPaneChanged { window, pane } =>
                EventV::WindowPaneChanged { window: *window, pane: *pane },
            ControlEvent::UnlinkedWindowAdd { window } => EventV::UnlinkedWindowAdd { window: *window },
            ControlEvent::UnlinkedWindowClose { window } =>
                EventV::UnlinkedWindowClose { window: *window },
            ControlEvent::UnlinkedWindowRenamed { window, name } =>
                EventV::UnlinkedWindowRenamed { window: *window, name: name@ },
            ControlEvent::SessionChanged { session, name } =>
                EventV::SessionChanged { session: *session, name: name@ },
            ControlEvent::SessionRenamed { name } => EventV::SessionRenamed { name: name@ },
            ControlEvent::SessionsChanged => EventV::SessionsChanged,
            ControlEvent::SessionWindowChanged { session, window } =>
                EventV::SessionWindowChanged { session: *session, window: *window },
            ControlEvent::PaneModeChanged { pane } => EventV::PaneModeChanged { pane: *pane },
            ControlEvent::ClientSessionChanged { client, session, name } =>
                EventV::ClientSessionChanged { client: client@, session: *session, name: name@ },
            ControlEvent::SubscriptionChanged { name, value } =>
                EventV::SubscriptionChanged { name: name@, value: value@ },
            ControlEvent::Pause { pane } => EventV::Pause { pane: *pane },
            ControlEvent::Continue { pane } => EventV::Continue { pane: *pane },
            ControlEvent::Exit { reason } => EventV::Exit { reason: opt_view(*reason) },
            ControlEvent::Unknown { line } => EventV::Unknown { line: line@ },
        }
    }
}

pub open spec fn events_view(v: Seq<ControlEvent>) -> Seq<EventV> {
    v.map_values(|e: ControlEvent| e@)
}

/// An open response block: its guard number and flags, and the output so far.
#[derive(Debug)]
pub struct PendingBlock {
    number: u64,
    flags: u64,
    output: String,
}

pub struct BlockV {
    pub number: u64,
    pub flags: u64,
    pub output: Seq<char>,
}

impl View for PendingBlock {
    type V = BlockV;

    closed spec fn view(&self) -> BlockV {
        BlockV { number: self.number, flags: self.flags, output: self.output@ }
    }
}

pub open spec fn block_view(b: Option<PendingBlock>) -> Option<BlockV> {
    match b {
        Some(x) => Some(x@),
        None => None,
    }
}

/// Incremental parser: feed it the channel bytes as they arrive.
#[derive(Debug)]
pub struct ControlParser {
    buf: Vec<u8>,
    block: Option<PendingBlock>,
}

pub struct ParserV {
    pub buf: Seq<u8>,
    pub block: Option<BlockV>,
}

impl View for ControlParser {
    type V = ParserV;

    closed spec fn view(&self) -> ParserV {
        ParserV { buf: self.buf@, block: block_view(self.block) }
    }
}

// ─── Specification ───────────────────────────────────────────────────────────

/// `%<n>` / `@<n>` / `$<n>` → n.
pub open spec fn sigil_id(token: Seq<char>, sigil: char) -> Option<u64> {
    match strip_prefix(token, seq![sigil]) {
        Some(rest) => match parse_uint(rest, 10, 0xffff_ffff_ffff_ffff) {
            Some(v) => Some(v as u64),
            None => None,
        },
        None => None,
    }
}

/// The `k`-th field of a `%begin`/`%end`/`%error` guard
/// (`<timestamp> <number> <flags>`), or `fallback` if it cannot be read.
pub open spec fn guard_field(rest: Seq<char>, k: int, fallback: u64) -> u64 {
    match ws_token(rest, k) {
        Some(t) => match parse_uint(t, 10, 0xffff_ffff_ffff_ffff) {
            Some(v) => v as u64,
            None => fallback,
        },
        None => fallback,
    }
}

pub open spec fn layout_change(rest: Seq<char>) -> Option<EventV> {
    let toks = ws_tokens(rest);
    if toks.len() == 0 {
        None
    } else {
        match sigil_id(toks[0], '@') {
            None => None,
            Some(w) => if toks.len() < 2 {
                None
            } else {
                Some(EventV::LayoutChange {
                    window: w,
                    layout: toks[1],
                    visible_layout: if toks.len() > 2 { Some(toks[2]) } else { None },
                    flags: if toks.len() > 3 { Some(toks[3]) } else { None },
                })
            },
        }
    }
}

/// `@<win> <name>` notifications.
pub open spec fn window_name(rest: Seq<char>, unlinked: bool) -> Option<EventV> {
    match split_once(rest, seq![' ']) {
        Some((w, name)) => match sigil_id(w, '@') {
            Some(window) => if unlinked {
                Some(EventV::UnlinkedWindowRenamed { window, name })
            } else {
                Some(EventV::WindowRenamed { window, name })
            },
            None => None,
        },
        None => None,
    }
}

pub open spec fn window_pane(rest: Seq<char>) -> Option<EventV> {
    match split_once(rest, seq![' ']) {
        Some((w, p)) => match (sigil_id(w, '@'), sigil_id(p, '%')) {
            (Some(window), Some(pane)) => Some(EventV::WindowPaneChanged { window, pane }),
            _ => None,
        },
        None => None,
    }
}

pub open spec fn session_changed(rest: Seq<char>) -> Option<EventV> {
    match split_once(rest, seq![' ']) {
        Some((s, name)) => match sigil_id(s, '$') {
            Some(session) => Some(EventV::SessionChanged { session, name }),
            None => None,
        },
        None => None,
    }
}

pub open spec fn session_window(rest: Seq<char>) -> Option<EventV> {
    match split_once(rest, seq![' ']) {
        Some((s, w)) => match (sigil_id(s, '$'), sigil_id(w, '@')) {
            (Some(session), Some(window)) => Some(EventV::SessionWindowChanged { session, window }),
            _ => None,
        },
        None => None,
    }
}

/// `splitn(3, ' ')` on `<client> $<session> <name>`.
pub open spec fn client_session(rest: Seq<char>) -> Option<EventV> {
    match split_once(rest, seq![' ']) {
        Some((client, r1)) => match split_once(r1, seq![' ']) {
            Some((s, name)) => match sigil_id(s, '$') {
                Some(session) => Some(EventV::ClientSessionChanged { client, session, name }),
                None => None,
            },
            None => None,
        },
        None => None,
    }
}

pub open spec fn subscription(rest: Seq<char>) -> Option<EventV> {
    match split_once(rest, " : "@) {
        Some((head, value)) => {
            let toks = ws_tokens(head);
            if toks.len() == 0 {
                None
            } else {
                Some(EventV::SubscriptionChanged { name: toks[0], value })
            }
        },
        None => None,
    }
}

pub open spec fn window_id_event(rest: Seq<char>, kind: int) -> Option<EventV> {
    match sigil_id(rest, '@') {
        Some(window) => Some(
            if kind == 0 {
                EventV::WindowAdd { window }
            } else if kind == 1 {
                EventV::WindowClose { window }
            } else if kind == 2 {
                EventV::UnlinkedWindowAdd { window }
            } else {
                EventV::UnlinkedWindowClose { window }
            },
        ),
        None => None,
    }
}

pub open spec fn pane_id_event(rest: Seq<char>, kind: int) -> Option<EventV> {
    match sigil_id(rest, '%') {
        Some(pane) => Some(
            if kind == 0 {
                EventV::PaneModeChanged { pane }
            } else if kind == 1 {
                EventV::Pause { pane }
            } else {
                EventV::Continue { pane }
            },
        ),
        None => None,
    }
}

/// One-line notifications (everything that is neither a block nor output).
/// `None` = not understood.
pub open spec fn notification(text: Seq<char>) -> Option<EventV> {
    if text == "%sessions-changed"@ {
        Some(EventV::SessionsChanged)
    } else if text == "%exit"@ {
        Some(EventV::Exit { reason: None })
    } else if strip_prefix(text, "%exit "@) is Some {
        Some(EventV::Exit { reason: strip_prefix(text, "%exit "@) })
    } else if strip_prefix(text, "%layout-change "@) is Some {
        layout_change(strip_prefix(text, "%layout-change "@).unwrap())
    } else if strip_prefix(text, "%window-add "@) is Some {
        window_id_event(strip_prefix(text, "%window-add "@).unwrap(), 0)
    } else if strip_prefix(text, "%window-close "@) is Some {
        window_id_event(strip_prefix(text, "%window-close "@).unwrap(), 1)
    } else if strip_prefix(text, "%window-renamed "@) is Some {
        window_name(strip_prefix(text, "%window-renamed "@).unwrap(), false)
    } else if strip_prefix(text, "%window-pane-changed "@) is Some {
        window_pane(strip_prefix(text, "%window-pane-changed "@).unwrap())
    } else if strip_prefix(text, "%unlinked-window-add "@) is Some {
        window_id_event(strip_prefix(text, "%unlinked-window-add "@).unwrap(), 2)
    } else if strip_prefix(text, "%unlinked-window-close "@) is Some {
        window_id_event(strip_prefix(text, "%unlinked-window-close "@).unwrap(), 3)
    } else if strip_prefix(text, "%unlinked-window-renamed "@) is Some {
        window_name(strip_prefix(text, "%unlinked-window-renamed "@).unwrap(), true)
    } else if strip_prefix(text, "%session-changed "@) is Some {
        session_changed(strip_prefix(text, "%session-changed "@).unwrap())
    } else if strip_prefix(text, "%session-renamed "@) is Some {
        Some(EventV::SessionRenamed { name: strip_prefix(text, "%session-renamed "@).unwrap() })
    } else if strip_prefix(text, "%session-window-changed "@) is Some {
        session_window(strip_prefix(text, "%session-window-changed "@).unwrap())
    } else if strip_prefix(text, "%pane-mode-changed "@) is Some {
        pane_id_event(strip_prefix(text, "%pane-mode-changed "@).unwrap(), 0)
    } else if strip_prefix(text, "%client-session-changed "@) is Some {
        client_session(strip_prefix(text, "%client-session-changed "@).unwrap())
    } else if strip_prefix(text, "%subscription-changed "@) is Some {
        subscription(strip_prefix(text, "%subscription-changed "@).unwrap())
    } else if strip_prefix(text, "%pause "@) is Some {
        pane_id_event(strip_prefix(text, "%pause "@).unwrap(), 1)
    } else if strip_prefix(text, "%continue "@) is Some {
        pane_id_event(strip_prefix(text, "%continue "@).unwrap(), 2)
    } else {
        None
    }
}

pub open spec fn is_octal(b: u8) -> bool {
    48 <= b && b <= 55
}

/// Octal unescaping of `%output`: `\ooo` (three octal digits) becomes that
/// byte (modulo 256); any other byte, `\` included, is kept as is.
pub open spec fn unescape(s: Seq<u8>) -> Seq<u8>
    decreases s.len(),
{
    if s.len() == 0 {
        seq![]
    } else if s[0] == 92 && 3 < s.len() && is_octal(s[1]) && is_octal(s[2]) && is_octal(s[3]) {
        let v: int = (s[1] - 48) * 64 + (s[2] - 48) * 8 + (s[3] - 48);
        seq![(v % 256) as u8] + unescape(s.skip(4))
    } else {
        seq![s[0]] + unescape(s.skip(1))
    }
}

/// `%<pane> <payload>`: the pane id (read from the bytes before the first
/// space, which must be ASCII to be a number at all) and the payload.
pub open spec fn split_pane(rest: Seq<u8>) -> Option<(u64, Seq<u8>)> {
    match first_occ(rest, seq![32u8]) {
        Some(sp) => {
            let tok = rest.take(sp);
            if all_ascii(tok) {
                match sigil_id(ascii_chars(tok), '%') {
                    Some(pane) => Some((pane, rest.skip(sp + 1))),
                    None => None,
                }
            } else {
                None
            }
        },
        None => None,
    }
}

pub open spec fn dcs_intro() -> Seq<u8> {
    seq![27u8, 80, 49, 48, 48, 48, 112]
}

pub open spec fn st_line() -> Seq<u8> {
    seq![27u8, 92]
}

/// `%output `
pub open spec fn output_tag() -> Seq<u8> {
    seq![37u8, 111, 117, 116, 112, 117, 116, 32]
}

/// `%extended-output `
pub open spec fn ext_output_tag() -> Seq<u8> {
    seq![37u8, 101, 120, 116, 101, 110, 100, 101, 100, 45, 111, 117, 116, 112, 117, 116, 32]
}

/// ` : `
pub open spec fn colon_sep() -> Seq<u8> {
    seq![32u8, 58, 32]
}

/// The event carried by a non-block, non-empty line, if it is an `%output`
/// or `%extended-output` line with a readable pane.
pub open spec fn output_event(line: Seq<u8>) -> Option<EventV> {
    if has_prefix(line, output_tag()) {
        match split_pane(line.skip(output_tag().len() as int)) {
            Some((pane, value)) => Some(EventV::Output { pane, bytes: unescape(value) }),
            None => None,
        }
    } else if has_prefix(line, ext_output_tag()) {
        match split_pane(line.skip(ext_output_tag().len() as int)) {
            Some((pane, tail)) => match first_occ(tail, colon_sep()) {
                Some(idx) => Some(EventV::ExtendedOutput { pane, bytes: unescape(tail.skip(idx + 3)) }),
                None => None,
            },
            None => None,
        }
    } else {
        None
    }
}

/// One complete line (without its `\n` and trailing `\r`): the new open block
/// and the event it completes, if any.
pub open spec fn parse_line(block: Option<BlockV>, raw: Seq<u8>) -> (Option<BlockV>, Option<EventV>) {
    let line = if has_prefix(raw, dcs_intro()) {
        raw.skip(dcs_intro().len() as int)
    } else {
        raw
    };
    if line == st_line() {
        (block, None)
    } else if block is Some {
        let b = block.unwrap();
        let text = lossy_utf8(line);
        if strip_prefix(text, "%end "@) is Some {
            let rest = strip_prefix(text, "%end "@).unwrap();
            (None, Some(EventV::CommandResponse {
                number: guard_field(rest, 1, b.number),
                flags: guard_field(rest, 2, b.flags),
                success: true,
                output: b.output,
            }))
        } else if strip_prefix(text, "%error "@) is Some {
            let rest = strip_prefix(text, "%error "@).unwrap();
            (None, Some(EventV::CommandResponse {
                number: guard_field(rest, 1, b.number),
                flags: guard_field(rest, 2, b.flags),
                success: false,
                output: b.output,
            }))
        } else {
            (Some(BlockV { number: b.number, flags: b.flags, output: b.output + text.push('\n') }), None)
        }
    } else if line.len() == 0 {
        (None, None)
    } else if output_event(line) is Some {
        (None, output_event(line))
    } else {
        let text = lossy_utf8(line);
        if strip_prefix(text, "%begin "@) is Some {
            let rest = strip_prefix(text, "%begin "@).unwrap();
            (Some(BlockV { number: guard_field(rest, 1, 0), flags: guard_field(rest, 2, 0), output: seq![] }), None)
        } else {
            match notification(text) {
                Some(ev) => (None, Some(ev)),
                None => (None, Some(EventV::Unknown { line: text })),
            }
        }
    }
}

/// The line without a trailing `\r`.
pub open spec fn strip_cr(l: Seq<u8>) -> Seq<u8> {
    if l.len() > 0 && l.last() == 13 {
        l.drop_last()
    } else {
        l
    }
}

pub open spec fn opt_seq<A>(o: Option<A>) -> Seq<A> {
    match o {
        Some(x) => seq![x],
        None => seq![],
    }
}

/// Processes every complete line of `data`: the final open block, the events
/// in order, and the unterminated rest.
pub open spec fn run_lines(block: Option<BlockV>, data: Seq<u8>) -> (Option<BlockV>, Seq<EventV>, Seq<u8>)
    decreases data.len(),
{
    match first_occ(data, seq![10u8]) {
        Some(i) => if 0 <= i < data.len() {
            let (b1, e) = parse_line(block, strip_cr(data.take(i)));
            let (b2, evs, rest) = run_lines(b1, data.skip(i + 1));
            (b2, opt_seq(e) + evs, rest)
        } else {
            (block, seq![], data)
        },
        None => (block, seq![], data),
    }
}

/// `feed`: the parser state after the bytes, and the completed events.
pub open spec fn feed_spec(p: ParserV, bytes: Seq<u8>) -> (ParserV, Seq<EventV>) {
    let (b, evs, rest) = run_lines(p.block, p.buf + bytes);
    if rest.len() > MAX_PENDING_LINE {
        (ParserV { buf: seq![], block: b }, evs.push(EventV::Unknown { line: lossy_utf8(rest) }))
    } else {
        (ParserV { buf: rest, block: b }, evs)
    }
}

// ─── Implementation ──────────────────────────────────────────────────────────

fn sigil_id_exec(token: &Vec<char>, sigil: char) -> (r: Option<u64>)
    ensures
        r == sigil_id(token@, sigil),
{
    let p = vec![sigil];
    assert(p@ =~= seq![sigil]);
    match strip_prefix_chars(token, &p) {
        Some(rest) => parse_uint_chars(&rest, 10, 0xffff_ffff_ffff_ffff),
        None => None,
    }
}

fn guard_field_exec(rest: &Vec<char>, k: usize, fallback: u64) -> (r: u64)
    ensures
        r == guard_field(rest@, k as int, fallback),
{
    let toks = split_ws(rest);
    proof {
        assert(toks@.map_values(|v: Vec<char>| v@).len() == toks@.len());
    }
    if k < toks.len() {
        proof {
            assert(ws_tokens(rest@)[k as int] == toks@[k as int]@);
        }
        match parse_uint_chars(&toks[k], 10, 0xffff_ffff_ffff_ffff) {
            Some(v) => v,
            None => fallback,
        }
    } else {
        fallback
    }
}

fn token_at(toks: &Vec<Vec<char>>, k: usize) -> (r: Option<String>)
    ensures
        match r {
            Some(s) => k < toks@.len() && s@ == toks@[k as int]@,
            None => k >= toks@.len(),
        },
{
    if k < toks.len() {
        Some(string_of(&toks[k]))
    } else {
        None
    }
}

fn layout_change_exec(rest: &Vec<char>) -> (r: Option<ControlEvent>)
    ensures
        match r {
            Some(e) => layout_change(rest@) == Some(e@),
            None => layout_change(rest@) is None,
        },
{
    let toks = split_ws(rest);
    let ghost tv = toks@.map_values(|v: Vec<char>| v@);
    assert(tv.len() == toks@.len());
    if toks.len() == 0 {
        return None;
    }
    assert(tv[0] == toks@[0]@);
    let w = match sigil_id_exec(&toks[0], '@') {
        Some(w) => w,
        None => return None,
    };
    if toks.len() < 2 {
        return None;
    }
    assert(tv[1] == toks@[1]@);
    let layout = string_of(&toks[1]);
    let visible = token_at(&toks, 2);
    let flags = token_at(&toks, 3);
    proof {
        if toks@.len() > 2 {
            assert(tv[2] == toks@[2]@);
        }
        if toks@.len() > 3 {
            assert(tv[3] == toks@[3]@);
        }
    }
    Some(ControlEvent::LayoutChange { window: w, layout, visible_layout: visible, flags })
}

fn space() -> (r: Vec<char>)
    ensures
        r@ == seq![' '],
{
    let v = vec![' '];
    assert(v@ =~= seq![' ']);
    v
}

fn window_name_exec(rest: &Vec<char>, unlinked: bool) -> (r: Option<ControlEvent>)
    ensures
        match r {
            Some(e) => window_name(rest@, unlinked) == Some(e@),
            None => window_name(rest@, unlinked) is None,
        },
{
    match split_once_chars(rest, &space()) {
        Some((w, name)) => match sigil_id_exec(&w, '@') {
            Some(window) => {
                let name = string_of(&name);
                if unlinked {
                    Some(ControlEvent::UnlinkedWindowRenamed { window, name })
                } else {
                    Some(ControlEvent::WindowRenamed { window, name })
                }
            },
            None => None,
        },
        None => None,
    }
}

fn window_pane_exec(rest: &Vec<char>) -> (r: Option<ControlEvent>)
    ensures
        match r {
            Some(e) => window_pane(rest@) == Some(e@),
            None => window_pane(rest@) is None,
        },
{
    match split_once_chars(rest, &space()) {
        Some((w, p)) => match (sigil_id_exec(&w, '@'), sigil_id_exec(&p, '%')) {
            (Some(window), Some(pane)) => Some(ControlEvent::WindowPaneChanged { window, pane }),
            _ => None,
        },
        None => None,
    }
}

fn session_changed_exec(rest: &Vec<char>) -> (r: Option<ControlEvent>)
    ensures
        match r {
            Some(e) => session_changed(rest@) == Some(e@),
            None => session_changed(rest@) is None,
        },
{
    match split_once_chars(rest, &space()) {
        Some((s, name)) => match sigil_id_exec(&s, '$') {
            Some(session) => Some(ControlEvent::SessionChanged { session, name: string_of(&name) }),
            None => None,
        },
        None => None,
    }
}

fn session_window_exec(rest: &Vec<char>) -> (r: Option<ControlEvent>)
    ensures
        match r {
            Some(e) => session_window(rest@) == Some(e@),
            None => session_window(rest@) is None,
        },
{
    match split_once_chars(rest, &space()) {
        Some((s, w)) => match (sigil_id_exec(&s, '$'), sigil_id_exec(&w, '@')) {
            (Some(session), Some(window)) => Some(ControlEvent::SessionWindowChanged { session, window }),
            _ => None,
        },
        None => None,
    }
}

fn client_session_exec(rest: &Vec<char>) -> (r: Option<ControlEvent>)
    ensures
        match r {
            Some(e) => client_session(rest@) == Some(e@),
            None => client_session(rest@) is None,
        },
{
    match split_once_chars(rest, &space()) {
        Some((client, r1)) => match split_once_chars(&r1, &space()) {
            Some((s, name)) => match sigil_id_exec(&s, '$') {
                Some(session) => Some(
                    ControlEvent::ClientSessionChanged {
                        client: string_of(&client),
                        session,
                        name: string_of(&name),
                    },
                ),
                None => None,
            },
            None => None,
        },
        None => None,
    }
}

fn subscription_exec(rest: &Vec<char>) -> (r: Option<ControlEvent>)
    ensures
        match r {
            Some(e) => subscription(rest@) == Some(e@),
            None => subscription(rest@) is None,
        },
{
    let sep = chars_of(" : ");
    match split_once_chars(rest, &sep) {
        Some((head, value)) => {
            let toks = split_ws(&head);
            let ghost tv = toks@.map_values(|v: Vec<char>| v@);
            assert(tv.len() == toks@.len());
            if toks.len() == 0 {
                None
            } else {
                assert(tv[0] == toks@[0]@);
                Some(ControlEvent::SubscriptionChanged { name: string_of(&toks[0]), value: string_of(&value) })
            }
        },
        None => None,
    }
}

fn window_id_event_exec(rest: &Vec<char>, kind: u8) -> (r: Option<ControlEvent>)
    ensures
        match r {
            Some(e) => window_id_event(rest@, kind as int) == Some(e@),
            None => window_id_event(rest@, kind as int) is None,
        },
{
    match sigil_id_exec(rest, '@') {
        Some(window) => Some(
            if kind == 0 {
                ControlEvent::WindowAdd { window }
            } else if kind == 1 {
                ControlEvent::WindowClose { window }
            } else if kind == 2 {
                ControlEvent::UnlinkedWindowAdd { window }
            } else {
                ControlEvent::UnlinkedWindowClose { window }
            },
        ),
        None => None,
    }
}

fn pane_id_event_exec(rest: &Vec<char>, kind: u8) -> (r: Option<ControlEvent>)
    ensures
        match r {
            Some(e) => pane_id_event(rest@, kind as int) == Some(e@),
            None => pane_id_event(rest@, kind as int) is None,
        },
{
    match sigil_id_exec(rest, '%') {
        Some(pane) => Some(
            if kind == 0 {
                ControlEvent::PaneModeChanged { pane }
            } else if kind == 1 {
                ControlEvent::Pause { pane }
            } else {
                ControlEvent::Continue { pane }
            },
        ),
        None => None,
    }
}

/// One-line notifications; `None` = not understood.
fn parse_notification(text: &Vec<char>) -> (r: Option<ControlEvent>)
    ensures
        match r {
            Some(e) => notification(text@) == Some(e@),
            None => notification(text@) is None,
        },
{
    if eq_lit(text, "%sessions-changed") {
        return Some(ControlEvent::SessionsChanged);
    }
    if eq_lit(text, "%exit") {
        return Some(ControlEvent::Exit { reason: None });
    }
    if let Some(rest) = strip_lit(text, "%exit ") {
        return Some(ControlEvent::Exit { reason: Some(string_of(&rest)) });
    }
    if let Some(rest) = strip_lit(text, "%layout-change ") {
        return layout_change_exec(&rest);
    }
    if let Some(rest) = strip_lit(text, "%window-add ") {
        return window_id_event_exec(&rest, 0);
    }
    if let Some(rest) = strip_lit(text, "%window-close ") {
        return window_id_event_exec(&rest, 1);
    }
    if let Some(rest) = strip_lit(text, "%window-renamed ") {
        return window_name_exec(&rest, false);
    }
    if let Some(rest) = strip_lit(text, "%window-pane-changed ") {
        return window_pane_exec(&rest);
    }
    if let Some(rest) = strip_lit(text, "%unlinked-window-add ") {
        return window_id_event_exec(&rest, 2);
    }
    if let Some(rest) = strip_lit(text, "%unlinked-window-close ") {
        return window_id_event_exec(&rest, 3);
    }
    if let Some(rest) = strip_lit(text, "%unlinked-window-renamed ") {
        return window_name_exec(&rest, true);
    }
    if let Some(rest) = strip_lit(text, "%session-changed ") {
        return session_changed_exec(&rest);
    }
    if let Some(rest) = strip_lit(text, "%session-renamed ") {
        return Some(ControlEvent::SessionRenamed { name: string_of(&rest) });
    }
    if let Some(rest) = strip_lit(text, "%session-window-changed ") {
        return session_window_exec(&rest);
    }
    if let Some(rest) = strip_lit(text, "%pane-mode-changed ") {
        return pane_id_event_exec(&rest, 0);
    }
    if let Some(rest) = strip_lit(text, "%client-session-changed ") {
        return client_session_exec(&rest);
    }
    if let Some(rest) = strip_lit(text, "%subscription-changed ") {
        return subscription_exec(&rest);
    }
    if let Some(rest) = strip_lit(text, "%pause ") {
        return pane_id_event_exec(&rest, 1);
    }
    if let Some(rest) = strip_lit(text, "%continue ") {
        return pane_id_event_exec(&rest, 2);
    }
    None
}

/// Octal unescaping of an `%output` payload.
fn unescape_octal(input: &Vec<u8>) -> (r: Vec<u8>)
    ensures
        r@ == unescape(input@),
{
    let mut out: Vec<u8> = Vec::new();
    let mut i: usize = 0;
    assert(input@.skip(0) =~= input@);
    while i < input.len()
        invariant
            0 <= i <= input.len(),
            out@ + unescape(input@.skip(i as int)) == unescape(input@),
        decreases input.len() - i,
    {
        let ghost t = input@.skip(i as int);
        if input[i] == 92 && input.len() - i > 3 && 48 <= input[i + 1] && input[i + 1] <= 55 && 48
            <= input[i + 2] && input[i + 2] <= 55 && 48 <= input[i + 3] && input[i + 3] <= 55 {
            let val: u32 = ((input[i + 1] - 48) as u32) * 64 + ((input[i + 2] - 48) as u32) * 8 + ((
            input[i + 3] - 48) as u32);
            let byte = (val % 256) as u8;
            proof {
                assert(t[0] == input@[i as int] && t[1] == input@[i + 1] && t[2] == input@[i + 2]
                    && t[3] == input@[i + 3]);
                assert(t.skip(4) =~= input@.skip(i + 4));
                assert(unescape(t) == seq![byte] + unescape(t.skip(4)));
            }
            out.push(byte);
            i += 4;
            proof {
                let prev = out@.drop_last();
                assert(out@ =~= prev + seq![byte]);
            }
        } else {
            let b = input[i];
            proof {
                assert(t[0] == input@[i as int]);
                if 3 < t.len() {
                    assert(t[1] == input@[i + 1] && t[2] == input@[i + 2] && t[3] == input@[i + 3]);
                }
                assert(t.skip(1) =~= input@.skip(i + 1));
                assert(unescape(t) == seq![b] + unescape(t.skip(1)));
            }
            out.push(b);
            i += 1;
            proof {
                let prev = out@.drop_last();
                assert(out@ =~= prev + seq![b]);
            }
        }
    }
    assert(input@.skip(i as int) =~= Seq::<u8>::empty());
    assert(unescape(Seq::<u8>::empty()) =~= Seq::<u8>::empty());
    assert(out@ + Seq::<u8>::empty() =~= out@);
    out
}

fn split_pane_exec(rest: &Vec<u8>) -> (r: Option<(u64, Vec<u8>)>)
    ensures
        match r {
            Some((pane, value)) => split_pane(rest@) == Some((pane, value@)),
            None => split_pane(rest@) is None,
        },
{
    let sp_pat = vec![32u8];
    assert(sp_pat@ =~= seq![32u8]);
    assert(rest@.skip(0) =~= rest@);
    match bytes_find_from(rest, &sp_pat, 0) {
        Some(sp) => {
            assert(sp < rest@.len());
            assert(sp < rest.len());
            let tok = bytes_range(rest, 0, sp);
            assert(rest@.subrange(0, sp as int) =~= rest@.take(sp as int));
            match ascii_to_chars(&tok) {
                Some(cs) => match sigil_id_exec(&cs, '%') {
                    Some(pane) => {
                        let value = bytes_range(rest, sp + 1, rest.len());
                        assert(rest@.subrange(sp + 1, rest@.len() as int) =~= rest@.skip(sp + 1));
                        Some((pane, value))
                    },
                    None => None,
                },
                None => None,
            }
        },
        None => None,
    }
}

fn lit_bytes_output() -> (r: Vec<u8>)
    ensures
        r@ == output_tag(),
{
    let v = vec![37u8, 111, 117, 116, 112, 117, 116, 32];
    assert(v@ =~= output_tag());
    v
}

fn lit_bytes_ext_output() -> (r: Vec<u8>)
    ensures
        r@ == ext_output_tag(),
{
    let v = vec![37u8, 101, 120, 116, 101, 110, 100, 101, 100, 45, 111, 117, 116, 112, 117, 116, 32];
    assert(v@ =~= ext_output_tag());
    v
}

fn output_event_exec(line: &Vec<u8>) -> (r: Option<ControlEvent>)
    ensures
        match r {
            Some(e) => output_event(line@) == Some(e@),
            None => output_event(line@) is None,
        },
{
    let out_tag = lit_bytes_output();
    match bytes_strip_prefix(line, &out_tag) {
        Some(rest) => {
            return match split_pane_exec(&rest) {
                Some((pane, value)) => Some(ControlEvent::Output { pane, bytes: unescape_octal(&value) }),
                None => None,
            };
        },
        None => {},
    }
    let ext_tag = lit_bytes_ext_output();
    match bytes_strip_prefix(line, &ext_tag) {
        Some(rest) => match split_pane_exec(&rest) {
            Some((pane, tail)) => {
                let sep = vec![32u8, 58, 32];
                assert(sep@ =~= colon_sep());
                assert(tail@.skip(0) =~= tail@);
                match bytes_find_from(&tail, &sep, 0) {
                    Some(idx) => {
                        let payload = bytes_range(&tail, idx + 3, tail.len());
                        assert(tail@.subrange(idx + 3, tail@.len() as int) =~= tail@.skip(idx + 3));
                        Some(ControlEvent::ExtendedOutput { pane, bytes: unescape_octal(&payload) })
                    },
                    None => None,
                }
            },
            None => None,
        },
        None => None,
    }
}

/// Parses one complete line against the open block.
fn parse_line_exec(block: &mut Option<PendingBlock>, raw: &Vec<u8>) -> (r: Option<ControlEvent>)
    ensures
        parse_line(block_view(*old(block)), raw@) == (block_view(*final(block)), match r {
            Some(e) => Some(e@),
            None => None::<EventV>,
        }),
{
    let dcs = vec![27u8, 80, 49, 48, 48, 48, 112];
    assert(dcs@ =~= dcs_intro());
    let line = match bytes_strip_prefix(raw, &dcs) {
        Some(l) => l,
        None => bytes_range(raw, 0, raw.len()),
    };
    assert(raw@.subrange(0, raw@.len() as int) =~= raw@);
    let st = vec![27u8, 92];
    assert(st@ =~= st_line());
    if bytes_eq(&line, &st) {
        return None;
    }
    if block.is_some() {
        let text_s = lossy_string(line.as_slice());
        let text = chars_of(text_s.as_str());
        let b = block.take().unwrap();
        if let Some(rest) = strip_lit(&text, "%end ") {
            let number = guard_field_exec(&rest, 1, b.number);
            let flags = guard_field_exec(&rest, 2, b.flags);
            return Some(ControlEvent::CommandResponse { number, flags, success: true, output: b.output });
        }
        if let Some(rest) = strip_lit(&text, "%error ") {
            let number = guard_field_exec(&rest, 1, b.number);
            let flags = guard_field_exec(&rest, 2, b.flags);
            return Some(ControlEvent::CommandResponse { number, flags, success: false, output: b.output });
        }
        let mut output = b.output;
        push_chars(&mut output, &text);
        push_char(&mut output, '\n');
        assert(output@ =~= b.output@ + text@.push('\n'));
        *block = Some(PendingBlock { number: b.number, flags: b.flags, output });
        return None;
    }
    if line.len() == 0 {
        return None;
    }
    let oe = output_event_exec(&line);
    if oe.is_some() {
        return oe;
    }
    let text_s = lossy_string(line.as_slice());
    let text = chars_of(text_s.as_str());
    if let Some(rest) = strip_lit(&text, "%begin ") {
        let number = guard_field_exec(&rest, 1, 0);
        let flags = guard_field_exec(&rest, 2, 0);
        *block = Some(PendingBlock { number, flags, output: String::new() });
        return None;
    }
    match parse_notification(&text) {
        Some(ev) => Some(ev),
        None => Some(ControlEvent::Unknown { line: text_s }),
    }
}

/// One step of `run_lines`: a line found at `[start, end)` followed by `\n`.
proof fn lemma_run_lines_step(block: Option<BlockV>, data: Seq<u8>, start: int, end: int)
    requires
        0 <= start <= end < data.len(),
        first_occ(data.skip(start), seq![10u8]) == Some(end - start),
    ensures
        ({
            let (b1, e) = parse_line(block, strip_cr(data.subrange(start, end)));
            let (b2, evs, rest) = run_lines(b1, data.skip(end + 1));
            run_lines(block, data.skip(start)) == (b2, opt_seq(e) + evs, rest)
        }),
{
    let t = data.skip(start);
    assert(t.take(end - start) =~= data.subrange(start, end));
    assert(t.skip(end - start + 1) =~= data.skip(end + 1));
}

/// Runs every complete line of `buf` against the open block; returns the
/// events and the start of the unterminated rest.
#[verifier::rlimit(50)]
fn run_lines_exec(block: &mut Option<PendingBlock>, buf: &Vec<u8>) -> (r: (Vec<ControlEvent>, usize))
    ensures
        r.1 <= buf@.len(),
        run_lines(block_view(*old(block)), buf@) == (block_view(*final(block)), events_view(r.0@), buf@.skip(r.1 as int)),
{
    let ghost all = buf@;
    let ghost block0 = block_view(*old(block));
    let mut events: Vec<ControlEvent> = Vec::new();
    let mut start: usize = 0;
    let nl = vec![10u8];
    assert(nl@ =~= seq![10u8]);
    assert(all.skip(0) =~= all);
    loop
        invariant
            0 <= start <= buf.len(),
            buf@ == all,
            nl@ == seq![10u8],
            ({
                let (bf, evs, rest) = run_lines(block_view(*block), all.skip(start as int));
                run_lines(block0, all) == (bf, events_view(events@) + evs, rest)
            }),
        ensures
            0 <= start <= buf.len(),
            run_lines(block0, all) == (block_view(*block), events_view(events@), all.skip(start as int)),
        decreases buf.len() - start,
    {
        match bytes_find_from(buf, &nl, start) {
            Some(end) => {
                let ghost bview = block_view(*block);
                proof {
                    lemma_run_lines_step(bview, all, start as int, end as int);
                }
                let mut line = bytes_range(buf, start, end);
                if line.len() > 0 && line[line.len() - 1] == 13 {
                    line.pop();
                    assert(line@ =~= all.subrange(start as int, end as int).drop_last());
                }
                let ghost ev_before = events_view(events@);
                let ev = parse_line_exec(block, &line);
                match ev {
                    Some(e) => {
                        events.push(e);
                        proof {
                            assert(events_view(events@) =~= ev_before.push(e@));
                        }
                    },
                    None => {},
                }
                proof {
                    let (b1, e) = parse_line(bview, strip_cr(all.subrange(start as int, end as int)));
                    let (b2, evs, rest) = run_lines(b1, all.skip(end + 1));
                    assert(events_view(events@) =~= ev_before + opt_seq(e));
                    assert(ev_before + (opt_seq(e) + evs) =~= events_view(events@) + evs);
                }
                start = end + 1;
            },
            None => {
                proof {
                    let t = all.skip(start as int);
                    assert(run_lines(block_view(*block), t) == (block_view(*block), Seq::<EventV>::empty(), t));
                    assert(events_view(events@) + Seq::<EventV>::empty() =~= events_view(events@));
                }
                break;
            },
        }
    }
    (events, start)
}

impl ControlParser {
    pub fn new() -> (r: Self)
        ensures
            r@ == (ParserV { buf: seq![], block: None }),
    {
        ControlParser { buf: Vec::new(), block: None }
    }

    /// Consumes channel bytes and returns the completed events. Lines without
    /// a final `\n` stay buffered for the next call.
    #[verifier::rlimit(40)]
    pub fn feed(&mut self, bytes: &[u8]) -> (r: Vec<ControlEvent>)
        ensures
            feed_spec(old(self)@, bytes@) == (final(self)@, events_view(r@)),
    {
        let mut buf: Vec<u8> = Vec::new();
        std::mem::swap(&mut buf, &mut self.buf);
        let mut k: usize = 0;
        while k < bytes.len()
            invariant
                0 <= k <= bytes.len(),
                buf@ == old(self)@.buf + bytes@.take(k as int),
            decreases bytes.len() - k,
        {
            buf.push(bytes[k]);
            k += 1;
            assert(buf@ =~= old(self)@.buf + bytes@.take(k as int));
        }
        assert(bytes@.take(bytes@.len() as int) =~= bytes@);
        let (mut events, start) = run_lines_exec(&mut self.block, &buf);
        let rest = bytes_range(&buf, start, buf.len());
        assert(buf@.subrange(start as int, buf@.len() as int) =~= buf@.skip(start as int));
        if rest.len() > MAX_PENDING_LINE {
            let line = lossy_string(rest.as_slice());
            let ghost before = events_view(events@);
            events.push(ControlEvent::Unknown { line });
            proof {
                assert(events_view(events@) =~= before.push(EventV::Unknown { line: lossy_utf8(rest@) }));
            }
            self.buf = Vec::new();
        } else {
            self.buf = rest;
        }
        events
    }
}


// ─── Laws ────────────────────────────────────────────────────────────────────

/// Appending bytes after `data` leaves the complete lines of `data` as they
/// were, and goes on from its unterminated rest.
proof fn lemma_run_lines_append(block: Option<BlockV>, data: Seq<u8>, x: Seq<u8>)
    ensures
        ({
            let (b, evs, rest) = run_lines(block, data);
            let (b2, evs2, rest2) = run_lines(b, rest + x);
            run_lines(block, data + x) == (b2, evs + evs2, rest2)
        }),
    decreases data.len(),
{
    let nl = seq![10u8];
    let dx = data + x;
    match first_occ(data, nl) {
        Some(i) => {
            assert(crate::text::is_first_occ(data, nl, i));
            assert(data.subrange(i, i + 1) =~= dx.subrange(i, i + 1));
            assert(crate::text::occurs_at(data, nl, i));
            assert(i + 1 <= data.len());
            assert forall|j: int| 0 <= j < i implies !crate::text::occurs_at(dx, nl, j) by {
                assert(!crate::text::occurs_at(data, nl, j));
                assert(data.subrange(j, j + 1) =~= dx.subrange(j, j + 1));
            }
            crate::text::lemma_first_occ_unique(dx, nl, i);
            assert(dx.take(i) =~= data.take(i));
            assert(dx.skip(i + 1) =~= data.skip(i + 1) + x);
            let (b1, e) = parse_line(block, strip_cr(data.take(i)));
            lemma_run_lines_append(b1, data.skip(i + 1), x);
            let (b, evs, rest) = run_lines(b1, data.skip(i + 1));
            let (b2, evs2, rest2) = run_lines(b, rest + x);
            assert(opt_seq(e) + (evs + evs2) =~= (opt_seq(e) + evs) + evs2);
        },
        None => {
            let (b2, evs2, rest2) = run_lines(block, data + x);
            assert(Seq::<EventV>::empty() + evs2 =~= evs2);
        },
    }
}

/// Feeding the parser two pieces gives the same events and the same state
/// as feeding it their concatenation at once, as long as the unterminated
/// line left after the first piece is not over the size limit (a line that
/// long is dropped as it stands).
pub proof fn lemma_feed_is_chunk_independent(p: ParserV, a: Seq<u8>, b: Seq<u8>)
    requires
        run_lines(p.block, p.buf + a).2.len() <= MAX_PENDING_LINE,
    ensures
        ({
            let (p1, e1) = feed_spec(p, a);
            let (p2, e2) = feed_spec(p1, b);
            let (q, e) = feed_spec(p, a + b);
            &&& q.buf == p2.buf
            &&& q.block == p2.block
            &&& e == e1 + e2
        }),
{
    lemma_run_lines_append(p.block, p.buf + a, b);
    assert(p.buf + (a + b) =~= (p.buf + a) + b);
    let (b1, e1, r1) = run_lines(p.block, p.buf + a);
    let (b2, e2, r2) = run_lines(b1, r1 + b);
    if r2.len() > MAX_PENDING_LINE {
        assert(e1 + e2.push(EventV::Unknown { line: lossy_utf8(r2) }) =~= (e1 + e2).push(
            EventV::Unknown { line: lossy_utf8(r2) },
        ));
    }
}

// ─── Notification keywords ───────────────────────────────────────────────────

/// A line that is not a prefix of `lit` at index `k` does not start with
/// `lit`, nor is it `lit`.
proof fn lemma_differs_at(text: Seq<char>, lit: Seq<char>, k: int)
    requires
        0 <= k < lit.len(),
        k >= text.len() || text[k] != lit[k],
    ensures
        strip_prefix(text, lit) is None,
        text != lit,
{
    if has_prefix(text, lit) {
        assert(text.take(lit.len() as int)[k] == lit[k]);
    }
}

proof fn lemma_keyword_rest(kw: Seq<char>, rest: Seq<char>)
    ensures
        strip_prefix(kw + rest, kw) == Some(rest),
{
    assert((kw + rest).take(kw.len() as int) =~= kw);
    assert((kw + rest).skip(kw.len() as int) =~= rest);
}

/// `%window-add <id>` is read as `WindowAdd` of that window, whatever the id;
/// no other notification kind comes out of it.
pub proof fn lemma_notification_window_add(rest: Seq<char>)
    ensures
        notification("%window-add "@ + rest) == (match sigil_id(rest, '@') {
            Some(window) => Some(EventV::WindowAdd { window }),
            None => None::<EventV>,
        }),
{
    let text = "%window-add "@ + rest;
    reveal_strlit("%exit");
    reveal_strlit("%exit ");
    reveal_strlit("%layout-change ");
    reveal_strlit("%sessions-changed");
    reveal_strlit("%window-add ");
    assert(text[1] == "%window-add "@[1]);
    lemma_differs_at(text, "%sessions-changed"@, 1);
    assert(text[1] == "%window-add "@[1]);
    lemma_differs_at(text, "%exit"@, 1);
    assert(text[1] == "%window-add "@[1]);
    lemma_differs_at(text, "%exit "@, 1);
    assert(text[1] == "%window-add "@[1]);
    lemma_differs_at(text, "%layout-change "@, 1);
    lemma_keyword_rest("%window-add "@, rest);
}

/// `%window-close <id>` is read as `WindowClose` of that window, whatever the id;
/// no other notification kind comes out of it.
pub proof fn lemma_notification_window_close(rest: Seq<char>)
    ensures
        notification("%window-close "@ + rest) == (match sigil_id(rest, '@') {
            Some(window) => Some(EventV::WindowClose { window }),
            None => None::<EventV>,
        }),
{
    let text = "%window-close "@ + rest;
    reveal_strlit("%exit");
    reveal_strlit("%exit ");
    reveal_strlit("%layout-change ");
    reveal_strlit("%sessions-changed");
    reveal_strlit("%window-add ");
    reveal_strlit("%window-close ");
    assert(text[1] == "%window-close "@[1]);
    lemma_differs_at(text, "%sessions-changed"@, 1);
    assert(text[1] == "%window-close "@[1]);
    lemma_differs_at(text, "%exit"@, 1);
    assert(text[1] == "%window-close "@[1]);
    lemma_differs_at(text, "%exit "@, 1);
    assert(text[1] == "%window-close "@[1]);
    lemma_differs_at(text, "%layout-change "@, 1);
    assert(text[8] == "%window-close "@[8]);
    lemma_differs_at(text, "%window-add "@, 8);
    lemma_keyword_rest("%window-close "@, rest);
}

/// `%unlinked-window-add <id>` is read as `UnlinkedWindowAdd` of that window, whatever the id;
/// no other notification kind comes out of it.
pub proof fn lemma_notification_unlinked_window_add(rest: Seq<char>)
    ensures
        notification("%unlinked-window-add "@ + rest) == (match sigil_id(rest, '@') {
            Some(window) => Some(EventV::UnlinkedWindowAdd { window }),
            None => None::<EventV>,
        }),
{
    let text = "%unlinked-window-add "@ + rest;
    reveal_strlit("%exit");
    reveal_strlit("%exit ");
    reveal_strlit("%layout-change ");
    reveal_strlit("%sessions-changed");
    reveal_strlit("%unlinked-window-add ");
    reveal_strlit("%window-add ");
    reveal_strlit("%window-close ");
    reveal_strlit("%window-pane-changed ");
    reveal_strlit("%window-renamed ");
    assert(text[1] == "%unlinked-window-add "@[1]);
    lemma_differs_at(text, "%sessions-changed"@, 1);
    assert(text[1] == "%unlinked-window-add "@[1]);
    lemma_differs_at(text, "%exit"@, 1);
    assert(text[1] == "%unlinked-window-add "@[1]);
    lemma_differs_at(text, "%exit "@, 1);
    assert(text[1] == "%unlinked-window-add "@[1]);
    lemma_differs_at(text, "%layout-change "@, 1);
    assert(text[1] == "%unlinked-window-add "@[1]);
    lemma_differs_at(text, "%window-add "@, 1);
    assert(text[1] == "%unlinked-window-add "@[1]);
    lemma_differs_at(text, "%window-close "@, 1);
    assert(text[1] == "%unlinked-window-add "@[1]);
    lemma_differs_at(text, "%window-renamed "@, 1);
    assert(text[1] == "%unlinked-window-add "@[1]);
    lemma_differs_at(text, "%window-pane-changed "@, 1);
    lemma_keyword_rest("%unlinked-window-add "@, rest);
}

/// `%unlinked-window-close <id>` is read as `UnlinkedWindowClose` of that window, whatever the id;
/// no other notification kind comes out of it.
pub proof fn lemma_notification_unlinked_window_close(rest: Seq<char>)
    ensures
        notification("%unlinked-window-close "@ + rest) == (match sigil_id(rest, '@') {
            Some(window) => Some(EventV::UnlinkedWindowClose { window }),
            None => None::<EventV>,
        }),
{
    let text = "%unlinked-window-close "@ + rest;
    reveal_strlit("%exit");
    reveal_strlit("%exit ");
    reveal_strlit("%layout-change ");
    reveal_strlit("%sessions-changed");
    reveal_strlit("%unlinked-window-add ");
    reveal_strlit("%unlinked-window-close ");
    reveal_strlit("%window-add ");
    reveal_strlit("%window-close ");
    reveal_strlit("%window-pane-changed ");
    reveal_strlit("%window-renamed ");
    assert(text[1] == "%unlinked-window-close "@[1]);
    lemma_differs_at(text, "%sessions-changed"@, 1);
    assert(text[1] == "%unlinked-window-close "@[1]);
    lemma_differs_at(text, "%exit"@, 1);
    assert(text[1] == "%unlinked-window-close "@[1]);
    lemma_differs_at(text, "%exit "@, 1);
    assert(text[1] == "%unlinked-window-close "@[1]);
    lemma_differs_at(text, "%layout-change "@, 1);
    assert(text[1] == "%unlinked-window-close "@[1]);
    lemma_differs_at(text, "%window-add "@, 1);
    assert(text[1] == "%unlinked-window-close "@[1]);
    lemma_differs_at(text, "%window-close "@, 1);
    assert(text[1] == "%unlinked-window-close "@[1]);
    lemma_differs_at(text, "%window-renamed "@, 1);
    assert(text[1] == "%unlinked-window-close "@[1]);
    lemma_differs_at(text, "%window-pane-changed "@, 1);
    assert(text[17] == "%unlinked-window-close "@[17]);
    lemma_differs_at(text, "%unlinked-window-add "@, 17);
    lemma_keyword_rest("%unlinked-window-close "@, rest);
}

/// `%pane-mode-changed <id>` is read as `PaneModeChanged` of that pane, whatever the id;
/// no other notification kind comes out of it.
pub proof fn lemma_notification_pane_mode_changed(rest: Seq<char>)
    ensures
        notification("%pane-mode-changed "@ + rest) == (match sigil_id(rest, '%') {
            Some(pane) => Some(EventV::PaneModeChanged { pane }),
            None => None::<EventV>,
        }),
{
    let text = "%pane-mode-changed "@ + rest;
    reveal_strlit("%exit");
    reveal_strlit("%exit ");
    reveal_strlit("%layout-change ");
    reveal_strlit("%pane-mode-changed ");
    reveal_strlit("%session-changed ");
    reveal_strlit("%session-renamed ");
    reveal_strlit("%session-window-changed ");
    reveal_strlit("%sessions-changed");
    reveal_strlit("%unlinked-window-add ");
    reveal_strlit("%unlinked-window-close ");
    reveal_strlit("%unlinked-window-renamed ");
    reveal_strlit("%window-add ");
    reveal_strlit("%window-close ");
    reveal_strlit("%window-pane-changed ");
    reveal_strlit("%window-renamed ");
    assert(text[1] == "%pane-mode-changed "@[1]);
    lemma_differs_at(text, "%sessions-changed"@, 1);
    assert(text[1] == "%pane-mode-changed "@[1]);
    lemma_differs_at(text, "%exit"@, 1);
    assert(text[1] == "%pane-mode-changed "@[1]);
    lemma_differs_at(text, "%exit "@, 1);
    assert(text[1] == "%pane-mode-changed "@[1]);
    lemma_differs_at(text, "%layout-change "@, 1);
    assert(text[1] == "%pane-mode-changed "@[1]);
    lemma_differs_at(text, "%window-add "@, 1);
    assert(text[1] == "%pane-mode-changed "@[1]);
    lemma_differs_at(text, "%window-close "@, 1);
    assert(text[1] == "%pane-mode-changed "@[1]);
    lemma_differs_at(text, "%window-renamed "@, 1);
    assert(text[1] == "%pane-mode-changed "@[1]);
    lemma_differs_at(text, "%window-pane-changed "@, 1);
    assert(text[1] == "%pane-mode-changed "@[1]);
    lemma_differs_at(text, "%unlinked-window-add "@, 1);
    assert(text[1] == "%pane-mode-changed "@[1]);
    lemma_differs_at(text, "%unlinked-window-close "@, 1);
    assert(text[1] == "%pane-mode-changed "@[1]);
    lemma_differs_at(text, "%unlinked-window-renamed "@, 1);
    assert(text[1] == "%pane-mode-changed "@[1]);
    lemma_differs_at(text, "%session-changed "@, 1);
    assert(text[1] == "%pane-mode-changed "@[1]);
    lemma_differs_at(text, "%session-renamed "@, 1);
    assert(text[1] == "%pane-mode-changed "@[1]);
    lemma_differs_at(text, "%session-window-changed "@, 1);
    lemma_keyword_rest("%pane-mode-changed "@, rest);
}

/// `%pause <id>` is read as `Pause` of that pane, whatever the id;
/// no other notification kind comes out of it.
pub proof fn lemma_notification_pause(rest: Seq<char>)
    ensures
        notification("%pause "@ + rest) == (match sigil_id(rest, '%') {
            Some(pane) => Some(EventV::Pause { pane }),
            None => None::<EventV>,
        }),
{
    let text = "%pause "@ + rest;
    reveal_strlit("%client-session-changed ");
    reveal_strlit("%exit");
    reveal_strlit("%exit ");
    reveal_strlit("%layout-change ");
    reveal_strlit("%pane-mode-changed ");
    reveal_strlit("%pause ");
    reveal_strlit("%session-changed ");
    reveal_strlit("%session-renamed ");
    reveal_strlit("%session-window-changed ");
    reveal_strlit("%sessions-changed");
    reveal_strlit("%subscription-changed ");
    reveal_strlit("%unlinked-window-add ");
    reveal_strlit("%unlinked-window-close ");
    reveal_strlit("%unlinked-window-renamed ");
    reveal_strlit("%window-add ");
    reveal_strlit("%window-close ");
    reveal_strlit("%window-pane-changed ");
    reveal_strlit("%window-renamed ");
    assert(text[1] == "%pause "@[1]);
    lemma_differs_at(text, "%sessions-changed"@, 1);
    assert(text[1] == "%pause "@[1]);
    lemma_differs_at(text, "%exit"@, 1);
    assert(text[1] == "%pause "@[1]);
    lemma_differs_at(text, "%exit "@, 1);
    assert(text[1] == "%pause "@[1]);
    lemma_differs_at(text, "%layout-change "@, 1);
    assert(text[1] == "%pause "@[1]);
    lemma_differs_at(text, "%window-add "@, 1);
    assert(text[1] == "%pause "@[1]);
    lemma_differs_at(text, "%window-close "@, 1);
    assert(text[1] == "%pause "@[1]);
    lemma_differs_at(text, "%window-renamed "@, 1);
    assert(text[1] == "%pause "@[1]);
    lemma_differs_at(text, "%window-pane-changed "@, 1);
    assert(text[1] == "%pause "@[1]);
    lemma_differs_at(text, "%unlinked-window-add "@, 1);
    assert(text[1] == "%pause "@[1]);
    lemma_differs_at(text, "%unlinked-window-close "@, 1);
    assert(text[1] == "%pause "@[1]);
    lemma_differs_at(text, "%unlinked-window-renamed "@, 1);
    assert(text[1] == "%pause "@[1]);
    lemma_differs_at(text, "%session-changed "@, 1);
    assert(text[1] == "%pause "@[1]);
    lemma_differs_at(text, "%session-renamed "@, 1);
    assert(text[1] == "%pause "@[1]);
    lemma_differs_at(text, "%session-window-changed "@, 1);
    assert(text[3] == "%pause "@[3]);
    lemma_differs_at(text, "%pane-mode-changed "@, 3);
    assert(text[1] == "%pause "@[1]);
    lemma_differs_at(text, "%client-session-changed "@, 1);
    assert(text[1] == "%pause "@[1]);
    lemma_differs_at(text, "%subscription-changed "@, 1);
    lemma_keyword_rest("%pause "@, rest);
}

/// `%continue <id>` is read as `Continue` of that pane, whatever the id;
/// no other notification kind comes out of it.
pub proof fn lemma_notification_continue(rest: Seq<char>)
    ensures
        notification("%continue "@ + rest) == (match sigil_id(rest, '%') {
            Some(pane) => Some(EventV::Continue { pane }),
            None => None::<EventV>,
        }),
{
    let text = "%continue "@ + rest;
    reveal_strlit("%client-session-changed ");
    reveal_strlit("%continue ");
    reveal_strlit("%exit");
    reveal_strlit("%exit ");
    reveal_strlit("%layout-change ");
    reveal_strlit("%pane-mode-changed ");
    reveal_strlit("%pause ");
    reveal_strlit("%session-changed ");
    reveal_strlit("%session-renamed ");
    reveal_strlit("%session-window-changed ");
    reveal_strlit("%sessions-changed");
    reveal_strlit("%subscription-changed ");
    reveal_strlit("%unlinked-window-add ");
    reveal_strlit("%unlinked-window-close ");
    reveal_strlit("%unlinked-window-renamed ");
    reveal_strlit("%window-add ");
    reveal_strlit("%window-close ");
    reveal_strlit("%window-pane-changed ");
    reveal_strlit("%window-renamed ");
    assert(text[1] == "%continue "@[1]);
    lemma_differs_at(text, "%sessions-changed"@, 1);
    assert(text[1] == "%continue "@[1]);
    lemma_differs_at(text, "%exit"@, 1);
    assert(text[1] == "%continue "@[1]);
    lemma_differs_at(text, "%exit "@, 1);
    assert(text[1] == "%continue "@[1]);
    lemma_differs_at(text, "%layout-change "@, 1);
    assert(text[1] == "%continue "@[1]);
    lemma_differs_at(text, "%window-add "@, 1);
    assert(text[1] == "%continue "@[1]);
    lemma_differs_at(text, "%window-close "@, 1);
    assert(text[1] == "%continue "@[1]);
    lemma_differs_at(text, "%window-renamed "@, 1);
    assert(text[1] == "%continue "@[1]);
    lemma_differs_at(text, "%window-pane-changed "@, 1);
    assert(text[1] == "%continue "@[1]);
    lemma_differs_at(text, "%unlinked-window-add "@, 1);
    assert(text[1] == "%continue "@[1]);
    lemma_differs_at(text, "%unlinked-window-close "@, 1);
    assert(text[1] == "%continue "@[1]);
    lemma_differs_at(text, "%unlinked-window-renamed "@, 1);
    assert(text[1] == "%continue "@[1]);
    lemma_differs_at(text, "%session-changed "@, 1);
    assert(text[1] == "%continue "@[1]);
    lemma_differs_at(text, "%session-renamed "@, 1);
    assert(text[1] == "%continue "@[1]);
    lemma_differs_at(text, "%session-window-changed "@, 1);
    assert(text[1] == "%continue "@[1]);
    lemma_differs_at(text, "%pane-mode-changed "@, 1);
    assert(text[2] == "%continue "@[2]);
    lemma_differs_at(text, "%client-session-changed "@, 2);
    assert(text[1] == "%continue "@[1]);
    lemma_differs_at(text, "%subscription-changed "@, 1);
    assert(text[1] == "%continue "@[1]);
    lemma_differs_at(text, "%pause "@, 1);
    lemma_keyword_rest("%continue "@, rest);
}

/// `%window-renamed @<id> <name>` is a `WindowRenamed`; no other notification kind comes out of it.
pub proof fn lemma_notification_window_renamed(rest: Seq<char>)
    ensures
        notification("%window-renamed "@ + rest) == match split_once(rest, seq![' ']) {
            Some((w, name)) => match sigil_id(w, '@') {
                Some(window) => Some(EventV::WindowRenamed { window, name }),
                None => None::<EventV>,
            },
            None => None::<EventV>,
        },
{
    let text = "%window-renamed "@ + rest;
    reveal_strlit("%exit");
    reveal_strlit("%exit ");
    reveal_strlit("%layout-change ");
    reveal_strlit("%sessions-changed");
    reveal_strlit("%window-add ");
    reveal_strlit("%window-close ");
    reveal_strlit("%window-renamed ");
    assert(text[1] == "%window-renamed "@[1]);
    lemma_differs_at(text, "%sessions-changed"@, 1);
    assert(text[1] == "%window-renamed "@[1]);
    lemma_differs_at(text, "%exit"@, 1);
    assert(text[1] == "%window-renamed "@[1]);
    lemma_differs_at(text, "%exit "@, 1);
    assert(text[1] == "%window-renamed "@[1]);
    lemma_differs_at(text, "%layout-change "@, 1);
    assert(text[8] == "%window-renamed "@[8]);
    lemma_differs_at(text, "%window-add "@, 8);
    assert(text[8] == "%window-renamed "@[8]);
    lemma_differs_at(text, "%window-close "@, 8);
    lemma_keyword_rest("%window-renamed "@, rest);
}

/// `%unlinked-window-renamed @<id> <name>` is an `UnlinkedWindowRenamed`; no other notification kind comes out of it.
pub proof fn lemma_notification_unlinked_window_renamed(rest: Seq<char>)
    ensures
        notification("%unlinked-window-renamed "@ + rest) == match split_once(rest, seq![' ']) {
            Some((w, name)) => match sigil_id(w, '@') {
                Some(window) => Some(EventV::UnlinkedWindowRenamed { window, name }),
                None => None::<EventV>,
            },
            None => None::<EventV>,
        },
{
    let text = "%unlinked-window-renamed "@ + rest;
    reveal_strlit("%exit");
    reveal_strlit("%exit ");
    reveal_strlit("%layout-change ");
    reveal_strlit("%sessions-changed");
    reveal_strlit("%unlinked-window-add ");
    reveal_strlit("%unlinked-window-close ");
    reveal_strlit("%unlinked-window-renamed ");
    reveal_strlit("%window-add ");
    reveal_strlit("%window-close ");
    reveal_strlit("%window-pane-changed ");
    reveal_strlit("%window-renamed ");
    assert(text[1] == "%unlinked-window-renamed "@[1]);
    lemma_differs_at(text, "%sessions-changed"@, 1);
    assert(text[1] == "%unlinked-window-renamed "@[1]);
    lemma_differs_at(text, "%exit"@, 1);
    assert(text[1] == "%unlinked-window-renamed "@[1]);
    lemma_differs_at(text, "%exit "@, 1);
    assert(text[1] == "%unlinked-window-renamed "@[1]);
    lemma_differs_at(text, "%layout-change "@, 1);
    assert(text[1] == "%unlinked-window-renamed "@[1]);
    lemma_differs_at(text, "%window-add "@, 1);
    assert(text[1] == "%unlinked-window-renamed "@[1]);
    lemma_differs_at(text, "%window-close "@, 1);
    assert(text[1] == "%unlinked-window-renamed "@[1]);
    lemma_differs_at(text, "%window-renamed "@, 1);
    assert(text[1] == "%unlinked-window-renamed "@[1]);
    lemma_differs_at(text, "%window-pane-changed "@, 1);
    assert(text[17] == "%unlinked-window-renamed "@[17]);
    lemma_differs_at(text, "%unlinked-window-add "@, 17);
    assert(text[17] == "%unlinked-window-renamed "@[17]);
    lemma_differs_at(text, "%unlinked-window-close "@, 17);
    lemma_keyword_rest("%unlinked-window-renamed "@, rest);
}

/// `%window-pane-changed @<window> %<pane>` is a `WindowPaneChanged`; no other notification kind comes out of it.
pub proof fn lemma_notification_window_pane_changed(rest: Seq<char>)
    ensures
        notification("%window-pane-changed "@ + rest) == match split_once(rest, seq![' ']) {
            Some((w, p)) => match (sigil_id(w, '@'), sigil_id(p, '%')) {
                (Some(window), Some(pane)) => Some(EventV::WindowPaneChanged { window, pane }),
                _ => None::<EventV>,
            },
            None => None::<EventV>,
        },
{
    let text = "%window-pane-changed "@ + rest;
    reveal_strlit("%exit");
    reveal_strlit("%exit ");
    reveal_strlit("%layout-change ");
    reveal_strlit("%sessions-changed");
    reveal_strlit("%window-add ");
    reveal_strlit("%window-close ");
    reveal_strlit("%window-pane-changed ");
    reveal_strlit("%window-renamed ");
    assert(text[1] == "%window-pane-changed "@[1]);
    lemma_differs_at(text, "%sessions-changed"@, 1);
    assert(text[1] == "%window-pane-changed "@[1]);
    lemma_differs_at(text, "%exit"@, 1);
    assert(text[1] == "%window-pane-changed "@[1]);
    lemma_differs_at(text, "%exit "@, 1);
    assert(text[1] == "%window-pane-changed "@[1]);
    lemma_differs_at(text, "%layout-change "@, 1);
    assert(text[8] == "%window-pane-changed "@[8]);
    lemma_differs_at(text, "%window-add "@, 8);
    assert(text[8] == "%window-pane-changed "@[8]);
    lemma_differs_at(text, "%window-close "@, 8);
    assert(text[8] == "%window-pane-changed "@[8]);
    lemma_differs_at(text, "%window-renamed "@, 8);
    lemma_keyword_rest("%window-pane-changed "@, rest);
}

/// `%session-changed $<id> <name>` is a `SessionChanged`; no other notification kind comes out of it.
pub proof fn lemma_notification_session_changed(rest: Seq<char>)
    ensures
        notification("%session-changed "@ + rest) == match split_once(rest, seq![' ']) {
            Some((s, name)) => match sigil_id(s, '$') {
                Some(session) => Some(EventV::SessionChanged { session, name }),
                None => None::<EventV>,
            },
            None => None::<EventV>,
        },
{
    let text = "%session-changed "@ + rest;
    reveal_strlit("%exit");
    reveal_strlit("%exit ");
    reveal_strlit("%layout-change ");
    reveal_strlit("%session-changed ");
    reveal_strlit("%sessions-changed");
    reveal_strlit("%unlinked-window-add ");
    reveal_strlit("%unlinked-window-close ");
    reveal_strlit("%unlinked-window-renamed ");
    reveal_strlit("%window-add ");
    reveal_strlit("%window-close ");
    reveal_strlit("%window-pane-changed ");
    reveal_strlit("%window-renamed ");
    assert(text[8] == "%session-changed "@[8]);
    lemma_differs_at(text, "%sessions-changed"@, 8);
    assert(text[1] == "%session-changed "@[1]);
    lemma_differs_at(text, "%exit"@, 1);
    assert(text[1] == "%session-changed "@[1]);
    lemma_differs_at(text, "%exit "@, 1);
    assert(text[1] == "%session-changed "@[1]);
    lemma_differs_at(text, "%layout-change "@, 1);
    assert(text[1] == "%session-changed "@[1]);
    lemma_differs_at(text, "%window-add "@, 1);
    assert(text[1] == "%session-changed "@[1]);
    lemma_differs_at(text, "%window-close "@, 1);
    assert(text[1] == "%session-changed "@[1]);
    lemma_differs_at(text, "%window-renamed "@, 1);
    assert(text[1] == "%session-changed "@[1]);
    lemma_differs_at(text, "%window-pane-changed "@, 1);
    assert(text[1] == "%session-changed "@[1]);
    lemma_differs_at(text, "%unlinked-window-add "@, 1);
    assert(text[1] == "%session-changed "@[1]);
    lemma_differs_at(text, "%unlinked-window-close "@, 1);
    assert(text[1] == "%session-changed "@[1]);
    lemma_differs_at(text, "%unlinked-window-renamed "@, 1);
    lemma_keyword_rest("%session-changed "@, rest);
}

/// `%session-renamed <name>` is a `SessionRenamed` with the rest of the line as the name; no other notification kind comes out of it.
pub proof fn lemma_notification_session_renamed(rest: Seq<char>)
    ensures
        notification("%session-renamed "@ + rest) == Some(EventV::SessionRenamed { name: rest }),
{
    let text = "%session-renamed "@ + rest;
    reveal_strlit("%exit");
    reveal_strlit("%exit ");
    reveal_strlit("%layout-change ");
    reveal_strlit("%session-changed ");
    reveal_strlit("%session-renamed ");
    reveal_strlit("%sessions-changed");
    reveal_strlit("%unlinked-window-add ");
    reveal_strlit("%unlinked-window-close ");
    reveal_strlit("%unlinked-window-renamed ");
    reveal_strlit("%window-add ");
    reveal_strlit("%window-close ");
    reveal_strlit("%window-pane-changed ");
    reveal_strlit("%window-renamed ");
    assert(text[8] == "%session-renamed "@[8]);
    lemma_differs_at(text, "%sessions-changed"@, 8);
    assert(text[1] == "%session-renamed "@[1]);
    lemma_differs_at(text, "%exit"@, 1);
    assert(text[1] == "%session-renamed "@[1]);
    lemma_differs_at(text, "%exit "@, 1);
    assert(text[1] == "%session-renamed "@[1]);
    lemma_differs_at(text, "%layout-change "@, 1);
    assert(text[1] == "%session-renamed "@[1]);
    lemma_differs_at(text, "%window-add "@, 1);
    assert(text[1] == "%session-renamed "@[1]);
    lemma_differs_at(text, "%window-close "@, 1);
    assert(text[1] == "%session-renamed "@[1]);
    lemma_differs_at(text, "%window-renamed "@, 1);
    assert(text[1] == "%session-renamed "@[1]);
    lemma_differs_at(text, "%window-pane-changed "@, 1);
    assert(text[1] == "%session-renamed "@[1]);
    lemma_differs_at(text, "%unlinked-window-add "@, 1);
    assert(text[1] == "%session-renamed "@[1]);
    lemma_differs_at(text, "%unlinked-window-close "@, 1);
    assert(text[1] == "%session-renamed "@[1]);
    lemma_differs_at(text, "%unlinked-window-renamed "@, 1);
    assert(text[9] == "%session-renamed "@[9]);
    lemma_differs_at(text, "%session-changed "@, 9);
    lemma_keyword_rest("%session-renamed "@, rest);
}

/// `%session-window-changed $<session> @<window>` is a `SessionWindowChanged`; no other notification kind comes out of it.
pub proof fn lemma_notification_session_window_changed(rest: Seq<char>)
    ensures
        notification("%session-window-changed "@ + rest) == match split_once(rest, seq![' ']) {
            Some((s, w)) => match (sigil_id(s, '$'), sigil_id(w, '@')) {
                (Some(session), Some(window)) => Some(EventV::SessionWindowChanged { session, window }),
                _ => None::<EventV>,
            },
            None => None::<EventV>,
        },
{
    let text = "%session-window-changed "@ + rest;
    reveal_strlit("%exit");
    reveal_strlit("%exit ");
    reveal_strlit("%layout-change ");
    reveal_strlit("%session-changed ");
    reveal_strlit("%session-renamed ");
    reveal_strlit("%session-window-changed ");
    reveal_strlit("%sessions-changed");
    reveal_strlit("%unlinked-window-add ");
    reveal_strlit("%unlinked-window-close ");
    reveal_strlit("%unlinked-window-renamed ");
    reveal_strlit("%window-add ");
    reveal_strlit("%window-close ");
    reveal_strlit("%window-pane-changed ");
    reveal_strlit("%window-renamed ");
    assert(text[8] == "%session-window-changed "@[8]);
    lemma_differs_at(text, "%sessions-changed"@, 8);
    assert(text[1] == "%session-window-changed "@[1]);
    lemma_differs_at(text, "%exit"@, 1);
    assert(text[1] == "%session-window-changed "@[1]);
    lemma_differs_at(text, "%exit "@, 1);
    assert(text[1] == "%session-window-changed "@[1]);
    lemma_differs_at(text, "%layout-change "@, 1);
    assert(text[1] == "%session-window-changed "@[1]);
    lemma_differs_at(text, "%window-add "@, 1);
    assert(text[1] == "%session-window-changed "@[1]);
    lemma_differs_at(text, "%window-close "@, 1);
    assert(text[1] == "%session-window-changed "@[1]);
    lemma_differs_at(text, "%window-renamed "@, 1);
    assert(text[1] == "%session-window-changed "@[1]);
    lemma_differs_at(text, "%window-pane-changed "@, 1);
    assert(text[1] == "%session-window-changed "@[1]);
    lemma_differs_at(text, "%unlinked-window-add "@, 1);
    assert(text[1] == "%session-window-changed "@[1]);
    lemma_differs_at(text, "%unlinked-window-close "@, 1);
    assert(text[1] == "%session-window-changed "@[1]);
    lemma_differs_at(text, "%unlinked-window-renamed "@, 1);
    assert(text[9] == "%session-window-changed "@[9]);
    lemma_differs_at(text, "%session-changed "@, 9);
    assert(text[9] == "%session-window-changed "@[9]);
    lemma_differs_at(text, "%session-renamed "@, 9);
    lemma_keyword_rest("%session-window-changed "@, rest);
}

/// `%exit <reason>` is an `Exit` with that reason; no other notification kind comes out of it.
pub proof fn lemma_notification_exit(rest: Seq<char>)
    ensures
        notification("%exit "@ + rest) == Some(EventV::Exit { reason: Some(rest) }),
{
    let text = "%exit "@ + rest;
    reveal_strlit("%exit");
    reveal_strlit("%exit ");
    reveal_strlit("%sessions-changed");
    assert(text[1] == "%exit "@[1]);
    lemma_differs_at(text, "%sessions-changed"@, 1);
    assert(text.len() != "%exit"@.len());
    lemma_keyword_rest("%exit "@, rest);
}

/// `%exit` alone is an `Exit` without a reason, and `%sessions-changed` is
/// `SessionsChanged`.
pub proof fn lemma_notification_bare_keywords()
    ensures
        notification("%exit"@) == Some(EventV::Exit { reason: None }),
        notification("%sessions-changed"@) == Some(EventV::SessionsChanged),
{
    reveal_strlit("%exit");
    reveal_strlit("%sessions-changed");
    lemma_differs_at("%exit"@, "%sessions-changed"@, 1);
}

/// `%layout-change @<window> <layout> [<visible> [<flags>]]` is a `LayoutChange` of those words; no other notification kind comes out of it.
pub proof fn lemma_notification_layout_change(rest: Seq<char>)
    ensures
        notification("%layout-change "@ + rest) == if ws_tokens(rest).len() >= 2 && sigil_id(ws_tokens(rest)[0], '@') is Some {
            Some(EventV::LayoutChange {
                window: sigil_id(ws_tokens(rest)[0], '@')->0,
                layout: ws_tokens(rest)[1],
                visible_layout: if ws_tokens(rest).len() > 2 { Some(ws_tokens(rest)[2]) } else { None },
                flags: if ws_tokens(rest).len() > 3 { Some(ws_tokens(rest)[3]) } else { None },
            })
        } else {
            None::<EventV>
        },
{
    let text = "%layout-change "@ + rest;
    reveal_strlit("%exit");
    reveal_strlit("%exit ");
    reveal_strlit("%layout-change ");
    reveal_strlit("%sessions-changed");
    assert(text[1] == "%layout-change "@[1]);
    lemma_differs_at(text, "%sessions-changed"@, 1);
    assert(text[1] == "%layout-change "@[1]);
    lemma_differs_at(text, "%exit"@, 1);
    assert(text[1] == "%layout-change "@[1]);
    lemma_differs_at(text, "%exit "@, 1);
    lemma_keyword_rest("%layout-change "@, rest);
}

/// `%client-session-changed <client> $<session> <name>` is a `ClientSessionChanged`; no other notification kind comes out of it.
pub proof fn lemma_notification_client_session_changed(rest: Seq<char>)
    ensures
        notification("%client-session-changed "@ + rest) == match split_once(rest, seq![' ']) {
            Some((client, r1)) => match split_once(r1, seq![' ']) {
                Some((s, name)) => match sigil_id(s, '$') {
                    Some(session) => Some(EventV::ClientSessionChanged { client, session, name }),
                    None => None::<EventV>,
                },
                None => None::<EventV>,
            },
            None => None::<EventV>,
        },
{
    let text = "%client-session-changed "@ + rest;
    reveal_strlit("%client-session-changed ");
    reveal_strlit("%exit");
    reveal_strlit("%exit ");
    reveal_strlit("%layout-change ");
    reveal_strlit("%pane-mode-changed ");
    reveal_strlit("%session-changed ");
    reveal_strlit("%session-renamed ");
    reveal_strlit("%session-window-changed ");
    reveal_strlit("%sessions-changed");
    reveal_strlit("%unlinked-window-add ");
    reveal_strlit("%unlinked-window-close ");
    reveal_strlit("%unlinked-window-renamed ");
    reveal_strlit("%window-add ");
    reveal_strlit("%window-close ");
    reveal_strlit("%window-pane-changed ");
    reveal_strlit("%window-renamed ");
    assert(text[1] == "%client-session-changed "@[1]);
    lemma_differs_at(text, "%sessions-changed"@, 1);
    assert(text[1] == "%client-session-changed "@[1]);
    lemma_differs_at(text, "%exit"@, 1);
    assert(text[1] == "%client-session-changed "@[1]);
    lemma_differs_at(text, "%exit "@, 1);
    assert(text[1] == "%client-session-changed "@[1]);
    lemma_differs_at(text, "%layout-change "@, 1);
    assert(text[1] == "%client-session-changed "@[1]);
    lemma_differs_at(text, "%window-add "@, 1);
    assert(text[1] == "%client-session-changed "@[1]);
    lemma_differs_at(text, "%window-close "@, 1);
    assert(text[1] == "%client-session-changed "@[1]);
    lemma_differs_at(text, "%window-renamed "@, 1);
    assert(text[1] == "%client-session-changed "@[1]);
    lemma_differs_at(text, "%window-pane-changed "@, 1);
    assert(text[1] == "%client-session-changed "@[1]);
    lemma_differs_at(text, "%unlinked-window-add "@, 1);
    assert(text[1] == "%client-session-changed "@[1]);
    lemma_differs_at(text, "%unlinked-window-close "@, 1);
    assert(text[1] == "%client-session-changed "@[1]);
    lemma_differs_at(text, "%unlinked-window-renamed "@, 1);
    assert(text[1] == "%client-session-changed "@[1]);
    lemma_differs_at(text, "%session-changed "@, 1);
    assert(text[1] == "%client-session-changed "@[1]);
    lemma_differs_at(text, "%session-renamed "@, 1);
    assert(text[1] == "%client-session-changed "@[1]);
    lemma_differs_at(text, "%session-window-changed "@, 1);
    assert(text[1] == "%client-session-changed "@[1]);
    lemma_differs_at(text, "%pane-mode-changed "@, 1);
    lemma_keyword_rest("%client-session-changed "@, rest);
}

/// `%subscription-changed <name> ... : <value>` is a `SubscriptionChanged` of that name and value; no other notification kind comes out of it.
pub proof fn lemma_notification_subscription_changed(rest: Seq<char>)
    ensures
        notification("%subscription-changed "@ + rest) == match split_once(rest, " : "@) {
            Some((head, value)) => if ws_tokens(head).len() == 0 {
                None::<EventV>
            } else {
                Some(EventV::SubscriptionChanged { name: ws_tokens(head)[0], value })
            },
            None => None::<EventV>,
        },
{
    let text = "%subscription-changed "@ + rest;
    reveal_strlit("%client-session-changed ");
    reveal_strlit("%exit");
    reveal_strlit("%exit ");
    reveal_strlit("%layout-change ");
    reveal_strlit("%pane-mode-changed ");
    reveal_strlit("%session-changed ");
    reveal_strlit("%session-renamed ");
    reveal_strlit("%session-window-changed ");
    reveal_strlit("%sessions-changed");
    reveal_strlit("%subscription-changed ");
    reveal_strlit("%unlinked-window-add ");
    reveal_strlit("%unlinked-window-close ");
    reveal_strlit("%unlinked-window-renamed ");
    reveal_strlit("%window-add ");
    reveal_strlit("%window-close ");
    reveal_strlit("%window-pane-changed ");
    reveal_strlit("%window-renamed ");
    assert(text[2] == "%subscription-changed "@[2]);
    lemma_differs_at(text, "%sessions-changed"@, 2);
    assert(text[1] == "%subscription-changed "@[1]);
    lemma_differs_at(text, "%exit"@, 1);
    assert(text[1] == "%subscription-changed "@[1]);
    lemma_differs_at(text, "%exit "@, 1);
    assert(text[1] == "%subscription-changed "@[1]);
    lemma_differs_at(text, "%layout-change "@, 1);
    assert(text[1] == "%subscription-changed "@[1]);
    lemma_differs_at(text, "%window-add "@, 1);
    assert(text[1] == "%subscription-changed "@[1]);
    lemma_differs_at(text, "%window-close "@, 1);
    assert(text[1] == "%subscription-changed "@[1]);
    lemma_differs_at(text, "%window-renamed "@, 1);
    assert(text[1] == "%subscription-changed "@[1]);
    lemma_differs_at(text, "%window-pane-changed "@, 1);
    assert(text[1] == "%subscription-changed "@[1]);
    lemma_differs_at(text, "%unlinked-window-add "@, 1);
    assert(text[1] == "%subscription-changed "@[1]);
    lemma_differs_at(text, "%unlinked-window-close "@, 1);
    assert(text[1] == "%subscription-changed "@[1]);
    lemma_differs_at(text, "%unlinked-window-renamed "@, 1);
    assert(text[2] == "%subscription-changed "@[2]);
    lemma_differs_at(text, "%session-changed "@, 2);
    assert(text[2] == "%subscription-changed "@[2]);
    lemma_differs_at(text, "%session-renamed "@, 2);
    assert(text[2] == "%subscription-changed "@[2]);
    lemma_differs_at(text, "%session-window-changed "@, 2);
    assert(text[1] == "%subscription-changed "@[1]);
    lemma_differs_at(text, "%pane-mode-changed "@, 1);
    assert(text[1] == "%subscription-changed "@[1]);
    lemma_differs_at(text, "%client-session-changed "@, 1);
    lemma_keyword_rest("%subscription-changed "@, rest);
}

/// Inside a `%begin` block, `%end` closes it as a success and `%error` as
/// a failure, both with the lines gathered so far; any other line (even one
/// that looks like a notification) is gathered, with its line break, and
/// gives no event.
pub proof fn lemma_block_ends_by_end_or_error(block: BlockV, raw: Seq<u8>, rest: Seq<char>)
    requires
        !has_prefix(raw, dcs_intro()),
        raw != st_line(),
    ensures
        lossy_utf8(raw) == "%end "@ + rest ==> parse_line(Some(block), raw) == (
            None::<BlockV>,
            Some(EventV::CommandResponse {
                number: guard_field(rest, 1, block.number),
                flags: guard_field(rest, 2, block.flags),
                success: true,
                output: block.output,
            }),
        ),
        lossy_utf8(raw) == "%error "@ + rest ==> parse_line(Some(block), raw) == (
            None::<BlockV>,
            Some(EventV::CommandResponse {
                number: guard_field(rest, 1, block.number),
                flags: guard_field(rest, 2, block.flags),
                success: false,
                output: block.output,
            }),
        ),
        strip_prefix(lossy_utf8(raw), "%end "@) is None && strip_prefix(lossy_utf8(raw), "%error "@) is None
            ==> parse_line(Some(block), raw) == (
            Some(BlockV { number: block.number, flags: block.flags, output: block.output + lossy_utf8(raw).push('\n') }),
            None::<EventV>,
        ),
{
    reveal_strlit("%end ");
    reveal_strlit("%error ");
    if lossy_utf8(raw) == "%end "@ + rest {
        lemma_keyword_rest("%end "@, rest);
    }
    if lossy_utf8(raw) == "%error "@ + rest {
        let text = "%error "@ + rest;
        assert(text[2] == "%error "@[2]);
        lemma_differs_at(text, "%end "@, 2);
        lemma_keyword_rest("%error "@, rest);
    }
}

/// Output without a backslash comes through unescaping untouched.
pub proof fn lemma_unescape_plain(s: Seq<u8>)
    requires
        !s.contains(92u8),
    ensures
        unescape(s) == s,
    decreases s.len(),
{
    if s.len() > 0 {
        assert(s[0] != 92u8) by {
            assert(s.contains(s[0]));
        }
        let t = s.skip(1);
        assert(!t.contains(92u8)) by {
            if t.contains(92u8) {
                let j = choose|j: int| 0 <= j < t.len() && t[j] == 92u8;
                assert(s[j + 1] == 92u8);
            }
        }
        lemma_unescape_plain(t);
        assert(s =~= seq![s[0]] + t);
    }
}

/// A backslash and three octal digits become the one byte they spell
/// (modulo 256), and the rest is unescaped after it.
pub proof fn lemma_unescape_octal(d1: u8, d2: u8, d3: u8, rest: Seq<u8>)
    requires
        is_octal(d1),
        is_octal(d2),
        is_octal(d3),
    ensures
        unescape(seq![92u8, d1, d2, d3] + rest) == seq![(((d1 - 48) * 64 + (d2 - 48) * 8 + (d3 - 48)) % 256) as u8]
            + unescape(rest),
{
    let s = seq![92u8, d1, d2, d3] + rest;
    assert(s.skip(4) =~= rest);
}

} // verus!
