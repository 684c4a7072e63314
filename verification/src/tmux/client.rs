//! State machine of the tmux control client, free of I/O and clocks.
//!
//! It wraps the parser and adds what the protocol does not give by itself:
//! the correlation of each `%begin…%end`/`%error` block with the command that
//! caused it (tmux answers in order, so the queue is FIFO and the `tag` is
//! set here, not tmux's internal number), timeouts of unanswered commands and
//! the irreversible closing of the control session. Bytes and monotonic
//! milliseconds come from the transport.
//!
//! After an `%exit`, a desynchronisation or a timeout, `send_command` refuses
//! to write: if tmux is no longer on the other side, whatever is written to
//! the channel would be run by the shell.
use std::collections::VecDeque;
use vstd::prelude::*;
use vstd::utf8::encode_utf8;
use crate::text::{concat_str, contains, contains_chars, chars_of};
use crate::tmux::protocol::{
    events_view, feed_spec, opt_view, ControlEvent, ControlParser, EventV, ParserV,
};

verus! {

/// Default time for a command to receive its response block.
pub const DEFAULT_COMMAND_TIMEOUT_MS: u64 = 30000;

/// An event already correlated, ready for the consumer.
#[derive(Debug, Clone, PartialEq, Eq)]
pub enum ClientEvent {
    /// Response to the command sent with this `tag` (FIFO order).
    CommandDone { tag: u64, success: bool, output: String },
    /// A notification that answers none of our commands, including the
    /// greeting block tmux emits on start.
    Notification(ControlEvent),
    /// The control session ended. **Do not write to the channel again.**
    Shutdown(ShutdownReason),
}

#[derive(Debug, Clone, PartialEq, Eq)]
pub enum ShutdownReason {
    /// `%exit` from tmux, with its reason if it gave one.
    Exit(Option<String>),
    /// A line outside any block that is not protocol: the channel no longer
    /// speaks control mode.
    Desync { line: String },
    /// The command with this `tag` ran out of time without a response.
    CommandTimeout { tag: u64 },
}

/// Error when trying to send a command.
#[derive(Debug, Clone, Copy, PartialEq, Eq, Structural)]
pub enum SendError {
    /// The control session is closed (exit/desync/timeout).
    Closed,
    /// The command contains a line break: in control mode a line is a
    /// command, and an embedded `\n` would send a second, ghost command.
    InvalidCommand,
}

pub enum ShutdownV {
    Exit(Option<Seq<char>>),
    Desync { line: Seq<char> },
    CommandTimeout { tag: u64 },
}

pub enum ClientEventV {
    CommandDone { tag: u64, success: bool, output: Seq<char> },
    Notification(EventV),
    Shutdown(ShutdownV),
}

impl View for ShutdownReason {
    type V = ShutdownV;

    open spec fn view(&self) -> ShutdownV {
        match self {
            ShutdownReason::Exit(r) => ShutdownV::Exit(opt_view(*r)),
            ShutdownReason::Desync { line } => ShutdownV::Desync { line: line@ },
            ShutdownReason::CommandTimeout { tag } => ShutdownV::CommandTimeout { tag: *tag },
        }
    }
}

impl View for ClientEvent {
    type V = ClientEventV;

    open spec fn view(&self) -> ClientEventV {
        match self {
            ClientEvent::CommandDone { tag, success, output } => ClientEventV::CommandDone {
                tag: *tag,
                success: *success,
                output: output@,
            },
            ClientEvent::Notification(e) => ClientEventV::Notification(e@),
            ClientEvent::Shutdown(r) => ClientEventV::Shutdown(r@),
        }
    }
}

pub open spec fn client_events_view(v: Seq<ClientEvent>) -> Seq<ClientEventV> {
    v.map_values(|e: ClientEvent| e@)
}

/// Incremental control client; one per `tmux -CC` session.
#[derive(Debug)]
pub struct ControlClient {
    parser: ControlParser,
    /// Commands waiting for their response, oldest first: `(tag, sent_at_ms)`.
    pending: VecDeque<(u64, u64)>,
    next_tag: u64,
    timeout_ms: u64,
    closed: bool,
}

pub struct ClientV {
    pub parser: ParserV,
    pub pending: Seq<(u64, u64)>,
    pub next_tag: u64,
    pub timeout_ms: u64,
    pub closed: bool,
}

impl View for ControlClient {
    type V = ClientV;

    closed spec fn view(&self) -> ClientV {
        ClientV {
            parser: self.parser@,
            pending: self.pending@,
            next_tag: self.next_tag,
            timeout_ms: self.timeout_ms,
            closed: self.closed,
        }
    }
}

// ─── Specification ───────────────────────────────────────────────────────────

/// Tags are issued in increasing order, so the queue holds increasing tags,
/// all below the next one to issue.
pub open spec fn client_wf(c: ClientV) -> bool {
    &&& forall|i: int, j: int|
        0 <= i < j < c.pending.len() ==> (#[trigger] c.pending[i]).0 < (#[trigger] c.pending[j]).0
    &&& forall|i: int| 0 <= i < c.pending.len() ==> (#[trigger] c.pending[i]).0 < c.next_tag
}

/// A line outside any block that does not start with `%` is not protocol.
pub open spec fn is_desync_line(line: Seq<char>) -> bool {
    !(line.len() > 0 && line[0] == '%')
}

/// Routes parser events: replies to this client's commands (flag bit 1) take
/// the oldest pending command; `%exit` and a non-protocol line end the
/// session and everything after them is dropped. Gives the remaining queue,
/// whether the session closed, and the routed events.
pub open spec fn route(pending: Seq<(u64, u64)>, evs: Seq<EventV>) -> (Seq<(u64, u64)>, bool, Seq<ClientEventV>)
    decreases evs.len(),
{
    if evs.len() == 0 {
        (pending, false, seq![])
    } else {
        let ev = evs[0];
        match ev {
            EventV::Exit { reason } => (pending, true, seq![ClientEventV::Shutdown(ShutdownV::Exit(reason))]),
            EventV::Unknown { line } => if is_desync_line(line) {
                (pending, true, seq![ClientEventV::Shutdown(ShutdownV::Desync { line })])
            } else {
                let r = route(pending, evs.drop_first());
                (r.0, r.1, seq![ClientEventV::Notification(ev)] + r.2)
            },
            EventV::CommandResponse { number, flags, success, output } => if flags % 2 == 1
                && pending.len() > 0 {
                let r = route(pending.drop_first(), evs.drop_first());
                (r.0, r.1, seq![ClientEventV::CommandDone { tag: pending[0].0, success, output }] + r.2)
            } else {
                let r = route(pending, evs.drop_first());
                (r.0, r.1, seq![ClientEventV::Notification(ev)] + r.2)
            },
            _ => {
                let r = route(pending, evs.drop_first());
                (r.0, r.1, seq![ClientEventV::Notification(ev)] + r.2)
            },
        }
    }
}

/// `feed` on the model: nothing happens once closed.
pub open spec fn client_feed(c: ClientV, bytes: Seq<u8>) -> (ClientV, Seq<ClientEventV>) {
    if c.closed {
        (c, seq![])
    } else {
        let (p, evs) = feed_spec(c.parser, bytes);
        let (pending, closed, out) = route(c.pending, evs);
        (ClientV { parser: p, pending, closed, ..c }, out)
    }
}

pub open spec fn has_line_break(s: Seq<char>) -> bool {
    contains(s, seq!['\n']) || contains(s, seq!['\r'])
}

/// `send_command` on the model: the new state and the result, with the
/// bytes to write as their character sequence.
pub open spec fn send_spec(c: ClientV, command: Seq<char>, now_ms: u64) -> (ClientV, Result<(u64, Seq<u8>), SendError>) {
    if c.closed {
        (c, Err(SendError::Closed))
    } else if has_line_break(command) {
        (c, Err(SendError::InvalidCommand))
    } else {
        (
            ClientV {
                pending: c.pending.push((c.next_tag, now_ms)),
                next_tag: (c.next_tag + 1) as u64,
                ..c
            },
            Ok((c.next_tag, encode_utf8(command + seq!['\n']))),
        )
    }
}

/// `check_timeouts` on the model: the oldest command expires once more than
/// `timeout_ms` have passed since it was sent; that closes the session.
pub open spec fn timeout_spec(c: ClientV, now_ms: u64) -> (ClientV, Option<ClientEventV>) {
    if c.closed || c.timeout_ms == 0 || c.pending.len() == 0 {
        (c, None)
    } else if now_ms.saturating_sub(c.pending[0].1) > c.timeout_ms {
        (
            ClientV { closed: true, ..c },
            Some(ClientEventV::Shutdown(ShutdownV::CommandTimeout { tag: c.pending[0].0 })),
        )
    } else {
        (c, None)
    }
}

/// A client just made with `with_timeout(timeout_ms)`.
pub open spec fn fresh_client(timeout_ms: u64) -> ClientV {
    ClientV { parser: ParserV { buf: seq![], block: None }, pending: seq![], next_tag: 0, timeout_ms, closed: false }
}

/// One call on a client, as the model sees it.
pub enum ClientOp {
    Send { command: Seq<char>, now_ms: u64 },
    Feed { bytes: Seq<u8> },
    Check { now_ms: u64 },
}

/// The client after one call.
pub open spec fn step_op(c: ClientV, op: ClientOp) -> ClientV {
    match op {
        ClientOp::Send { command, now_ms } => send_spec(c, command, now_ms).0,
        ClientOp::Feed { bytes } => client_feed(c, bytes).0,
        ClientOp::Check { now_ms } => timeout_spec(c, now_ms).0,
    }
}

/// The client after a sequence of calls, in order.
pub open spec fn run_ops(c: ClientV, ops: Seq<ClientOp>) -> ClientV
    decreases ops.len(),
{
    if ops.len() == 0 {
        c
    } else {
        step_op(run_ops(c, ops.drop_last()), ops.last())
    }
}

/// The tags that the accepted `send_command` calls of a sequence gave, in
/// order.
pub open spec fn issued_tags(c: ClientV, ops: Seq<ClientOp>) -> Seq<u64>
    decreases ops.len(),
{
    if ops.len() == 0 {
        seq![]
    } else {
        let rest = issued_tags(c, ops.drop_last());
        match ops.last() {
            ClientOp::Send { command, now_ms } => match send_spec(run_ops(c, ops.drop_last()), command, now_ms).1 {
                Ok((t, _)) => rest.push(t),
                Err(_) => rest,
            },
            _ => rest,
        }
    }
}

pub open spec fn send_res_view(r: Result<(u64, Vec<u8>), SendError>) -> Result<(u64, Seq<u8>), SendError> {
    match r {
        Ok((t, b)) => Ok((t, b@)),
        Err(e) => Err(e),
    }
}

pub open spec fn prepend(out: Seq<ClientEventV>, r: (Seq<(u64, u64)>, bool, Seq<ClientEventV>)) -> (Seq<(u64, u64)>, bool, Seq<ClientEventV>) {
    (r.0, r.1, out + r.2)
}

impl ControlClient {
    pub fn new() -> (r: Self)
        ensures
            r@ == fresh_client(DEFAULT_COMMAND_TIMEOUT_MS),
            client_wf(r@),
    {
        Self::with_timeout(DEFAULT_COMMAND_TIMEOUT_MS)
    }

    /// `timeout_ms = 0` turns timeouts off.
    pub fn with_timeout(timeout_ms: u64) -> (r: Self)
        ensures
            r@ == fresh_client(timeout_ms),
            client_wf(r@),
    {
        ControlClient {
            parser: ControlParser::new(),
            pending: VecDeque::new(),
            next_tag: 0,
            timeout_ms,
            closed: false,
        }
    }

    /// The session ended (exit/desync/timeout): the channel is no longer
    /// protocol.
    pub fn is_closed(&self) -> (r: bool)
        ensures
            r == self@.closed,
    {
        self.closed
    }

    /// Commands still without a response.
    pub fn pending_count(&self) -> (r: usize)
        ensures
            r == self@.pending.len(),
    {
        self.pending.len()
    }

    /// Queues `command` and gives `(tag, bytes)` to write to the channel. The
    /// monotonic clock `now_ms` comes from the caller.
    pub fn send_command(&mut self, command: &str, now_ms: u64) -> (r: Result<(u64, Vec<u8>), SendError>)
        requires
            old(self)@.closed || has_line_break(command@) || old(self)@.next_tag < u64::MAX,
        ensures
            send_spec(old(self)@, command@, now_ms) == (final(self)@, send_res_view(r)),
            client_wf(old(self)@) ==> client_wf(final(self)@),
    {
        if self.closed {
            return Err(SendError::Closed);
        }
        let cs = chars_of(command);
        let nl: Vec<char> = vec!['\n'];
        let cr: Vec<char> = vec!['\r'];
        assert(nl@ =~= seq!['\n']);
        assert(cr@ =~= seq!['\r']);
        if contains_chars(&cs, &nl) || contains_chars(&cs, &cr) {
            return Err(SendError::InvalidCommand);
        }
        let tag = self.next_tag;
        self.next_tag = self.next_tag + 1;
        self.pending.push_back((tag, now_ms));
        let line = concat_str(command, "\n");
        proof {
            reveal_strlit("\n");
        }
        let bytes = vstd::slice::slice_to_vec(line.as_str().as_bytes());
        assert(line@ =~= command@ + seq!['\n']);
        assert(!has_line_break(command@));
        assert(bytes@ == encode_utf8(command@ + seq!['\n']));
        assert(final(self)@ == send_spec(old(self)@, command@, now_ms).0);
        Ok((tag, bytes))
    }

    /// Channel bytes → correlated events. After a `Shutdown` the rest of the
    /// stream is dropped (it is no longer protocol) and `feed` gives nothing.
    pub fn feed(&mut self, bytes: &[u8]) -> (r: Vec<ClientEvent>)
        ensures
            client_feed(old(self)@, bytes@) == (final(self)@, client_events_view(r@)),
            client_wf(old(self)@) ==> client_wf(final(self)@),
    {
        if self.closed {
            let r: Vec<ClientEvent> = Vec::new();
            assert(client_events_view(r@) =~= Seq::<ClientEventV>::empty());
            return r;
        }
        let evs = self.parser.feed(bytes);
        let ghost ev0 = events_view(evs@);
        let ghost p0 = self.pending@;
        let ghost base = old(self)@;
        let mut out: Vec<ClientEvent> = Vec::new();
        proof {
            lemma_route_suffix(p0, ev0);
            assert(ev0.skip(0) =~= ev0);
            assert(client_events_view(out@) =~= Seq::<ClientEventV>::empty());
        }
        for ev in it: evs.into_iter()
            invariant
                !self.closed,
                base == old(self)@,
                !base.closed,
                it.seq() == evs@,
                ev0 == events_view(evs@),
                self.next_tag == base.next_tag,
                self.timeout_ms == base.timeout_ms,
                feed_spec(base.parser, bytes@).0 == self.parser@,
                feed_spec(base.parser, bytes@).1 == ev0,
                p0 == base.pending,
                route(p0, ev0) == prepend(
                    client_events_view(out@),
                    route(self.pending@, ev0.skip(it.index() as int)),
                ),
                client_wf(base) ==> (forall|i: int, j: int|
                    0 <= i < j < self.pending@.len() ==> (#[trigger] self.pending@[i]).0 < (#[trigger] self.pending@[j]).0),
                client_wf(base) ==> (forall|i: int|
                    0 <= i < self.pending@.len() ==> (#[trigger] self.pending@[i]).0 < base.next_tag),
        {
            let ghost k = it.index() as int;
            let ghost rest = ev0.skip(k);
            let ghost before = client_events_view(out@);
            let ghost pend = self.pending@;
            assert(rest[0] == ev@);
            assert(rest.drop_first() =~= ev0.skip(k + 1));
            match ev {
                ControlEvent::CommandResponse { number, flags, success, output } => {
                    assert((flags & 1 == 1) == (flags % 2 == 1)) by (bit_vector);
                    let correlated = if flags & 1 == 1 {
                        self.pending.pop_front()
                    } else {
                        None
                    };
                    match correlated {
                        Some((tag, _)) => {
                            assert(pend.drop_first() =~= self.pending@);
                            out.push(ClientEvent::CommandDone { tag, success, output });
                        },
                        None => {
                            out.push(
                                ClientEvent::Notification(
                                    ControlEvent::CommandResponse { number, flags, success, output },
                                ),
                            );
                        },
                    }
                },
                ControlEvent::Exit { reason } => {
                    self.closed = true;
                    let ghost rv = opt_view(reason);
                    out.push(ClientEvent::Shutdown(ShutdownReason::Exit(reason)));
                    assert(rest[0] == EventV::Exit { reason: rv });
                    assert(route(pend, rest) == (pend, true, seq![ClientEventV::Shutdown(ShutdownV::Exit(rv))]));
                    assert(client_events_view(out@) =~= before + seq![ClientEventV::Shutdown(ShutdownV::Exit(rv))]);
                    assert(route(p0, ev0) == (pend, true, client_events_view(out@)));
                    return out;
                },
                ControlEvent::Unknown { line } => {
                    let lc = chars_of(line.as_str());
                    if !(lc.len() > 0 && lc[0] == '%') {
                        self.closed = true;
                        out.push(ClientEvent::Shutdown(ShutdownReason::Desync { line }));
                        return out;
                    }
                    out.push(ClientEvent::Notification(ControlEvent::Unknown { line }));
                },
                other => {
                    out.push(ClientEvent::Notification(other));
                },
            }
            assert(client_events_view(out@) =~= before.push(client_events_view(out@).last()));
        }
        proof {
            assert(ev0.skip(ev0.len() as int) =~= Seq::<EventV>::empty());
            assert(client_events_view(out@) + Seq::<ClientEventV>::empty() =~= client_events_view(out@));
        }
        out
    }

    /// Expires the oldest command if it ran out of time. A timeout **closes**
    /// the session: a tmux that does not answer is no longer reliable.
    pub fn check_timeouts(&mut self, now_ms: u64) -> (r: Option<ClientEvent>)
        ensures
            timeout_spec(old(self)@, now_ms) == (final(self)@, match r {
                Some(e) => Some(e@),
                None => None::<ClientEventV>,
            }),
            client_wf(old(self)@) ==> client_wf(final(self)@),
    {
        if self.closed || self.timeout_ms == 0 || self.pending.len() == 0 {
            return None;
        }
        let (tag, sent_at_ms) = self.pending[0];
        if now_ms.saturating_sub(sent_at_ms) > self.timeout_ms {
            self.closed = true;
            return Some(ClientEvent::Shutdown(ShutdownReason::CommandTimeout { tag }));
        }
        None
    }
}

impl Default for ControlClient {
    fn default() -> (r: Self)
        ensures
            r@ == fresh_client(DEFAULT_COMMAND_TIMEOUT_MS),
    {
        Self::new()
    }
}

// ─── Laws ────────────────────────────────────────────────────────────────────

/// What `route` leaves in the queue is what it did not take from its front.
pub proof fn lemma_route_suffix(p: Seq<(u64, u64)>, evs: Seq<EventV>)
    ensures
        route(p, evs).0.len() <= p.len(),
        route(p, evs).0 == p.skip(p.len() - route(p, evs).0.len()),
    decreases evs.len(),
{
    if evs.len() > 0 {
        lemma_route_suffix(p, evs.drop_first());
        if p.len() > 0 {
            lemma_route_suffix(p.drop_first(), evs.drop_first());
            let r = route(p.drop_first(), evs.drop_first()).0;
            assert(p.drop_first().skip(p.drop_first().len() - r.len()) =~= p.skip(p.len() - r.len()));
        }
    }
    assert(p.skip(0) =~= p);
}

pub open spec fn tags_of(p: Seq<(u64, u64)>) -> Seq<u64> {
    p.map_values(|x: (u64, u64)| x.0)
}

/// Tags of the `CommandDone` events, in order.
pub open spec fn done_tags(out: Seq<ClientEventV>) -> Seq<u64>
    decreases out.len(),
{
    if out.len() == 0 {
        seq![]
    } else {
        match out[0] {
            ClientEventV::CommandDone { tag, .. } => seq![tag] + done_tags(out.drop_first()),
            _ => done_tags(out.drop_first()),
        }
    }
}

/// Responses are matched FIFO: the tags answered by one `feed`, followed by
/// the tags still pending, are exactly the tags that were pending before.
pub proof fn lemma_route_fifo(p: Seq<(u64, u64)>, evs: Seq<EventV>)
    ensures
        done_tags(route(p, evs).2) + tags_of(route(p, evs).0) == tags_of(p),
    decreases evs.len(),
{
    if evs.len() > 0 {
        let ev = evs[0];
        lemma_route_fifo(p, evs.drop_first());
        if p.len() > 0 {
            lemma_route_fifo(p.drop_first(), evs.drop_first());
            assert(tags_of(p) =~= seq![p[0].0] + tags_of(p.drop_first()));
        }
        let r = route(p, evs);
        let taken = ev->CommandResponse_flags % 2 == 1 && ev is CommandResponse && p.len() > 0;
        let ends = ev is Exit || (ev is Unknown && is_desync_line(ev->line));
        if ends {
            assert(r.2.drop_first() =~= Seq::<ClientEventV>::empty());
            assert(done_tags(r.2.drop_first()) =~= Seq::<u64>::empty());
            assert(done_tags(r.2) =~= Seq::<u64>::empty());
        } else if taken {
            let t = route(p.drop_first(), evs.drop_first());
            assert(r.2.drop_first() =~= t.2);
            assert(done_tags(r.2) == seq![p[0].0] + done_tags(t.2));
            assert(done_tags(r.2) + tags_of(r.0) =~= seq![p[0].0] + (done_tags(t.2) + tags_of(t.0)));
        } else {
            let t = route(p, evs.drop_first());
            assert(r.2.drop_first() =~= t.2);
            assert(done_tags(r.2) == done_tags(t.2));
        }
    } else {
        assert(done_tags(route(p, evs).2) =~= Seq::<u64>::empty());
    }
}

/// One `feed` closes the session exactly when its last event is a
/// `Shutdown`, and no other event of it is one.
pub proof fn lemma_route_shutdown_last(p: Seq<(u64, u64)>, evs: Seq<EventV>)
    ensures
        route(p, evs).1 <==> (route(p, evs).2.len() > 0 && route(p, evs).2.last() is Shutdown),
        forall|i: int| 0 <= i < route(p, evs).2.len() - 1 ==> !(#[trigger] route(p, evs).2[i] is Shutdown),
    decreases evs.len(),
{
    if evs.len() > 0 {
        let ev = evs[0];
        lemma_route_shutdown_last(p, evs.drop_first());
        if p.len() > 0 {
            lemma_route_shutdown_last(p.drop_first(), evs.drop_first());
        }
        let r = route(p, evs);
        let tail = if ev->CommandResponse_flags % 2 == 1 && ev is CommandResponse && p.len() > 0 {
            route(p.drop_first(), evs.drop_first())
        } else {
            route(p, evs.drop_first())
        };
        if !(ev is Exit) && !(ev is Unknown && is_desync_line(ev->line)) {
            assert(r.2 == seq![r.2[0]] + tail.2);
            assert(!(r.2[0] is Shutdown));
            assert forall|i: int| 0 <= i < r.2.len() - 1 implies !(#[trigger] r.2[i] is Shutdown) by {
                if i > 0 {
                    assert(r.2[i] == tail.2[i - 1]);
                }
            }
            if tail.2.len() > 0 {
                assert(r.2.last() == tail.2.last());
            }
        }
    }
}

/// A closed client is inert: `feed` gives nothing and changes nothing,
/// `send_command` is refused with `Closed`, and no timeout fires.
pub proof fn lemma_closed_client_is_inert(c: ClientV, bytes: Seq<u8>, command: Seq<char>, now_ms: u64)
    requires
        c.closed,
    ensures
        client_feed(c, bytes) == (c, Seq::<ClientEventV>::empty()),
        send_spec(c, command, now_ms) == (c, Err::<(u64, Seq<u8>), SendError>(SendError::Closed)),
        timeout_spec(c, now_ms) == (c, None::<ClientEventV>),
{
}

/// Every `Shutdown` closes the client for good: after a `feed` that yields
/// one, the client is closed and every later operation is inert.
pub proof fn lemma_shutdown_closes(c: ClientV, bytes: Seq<u8>)
    ensures
        (exists|i: int| 0 <= i < client_feed(c, bytes).1.len() && (#[trigger] client_feed(c, bytes).1[i]) is Shutdown)
            ==> client_feed(c, bytes).0.closed,
{
    if !c.closed {
        let (p, evs) = feed_spec(c.parser, bytes);
        lemma_route_shutdown_last(c.pending, evs);
    }
}

/// A command that is refused (closed session or a line break in it) leaves
/// the client untouched; an accepted one is queued at the back with the next
/// tag.
pub proof fn lemma_send_queues_at_back(c: ClientV, command: Seq<char>, now_ms: u64)
    requires
        !c.closed,
        !has_line_break(command),
        c.next_tag < u64::MAX,
    ensures
        send_spec(c, command, now_ms).0.pending == c.pending.push((c.next_tag, now_ms)),
        tags_of(send_spec(c, command, now_ms).0.pending) == tags_of(c.pending).push(c.next_tag),
{
    assert(tags_of(c.pending.push((c.next_tag, now_ms))) =~= tags_of(c.pending).push(c.next_tag));
}


/// The timeout a client was made with never changes, and with `0` no
/// command ever expires: sends, feeds and timeout checks keep it, and a
/// check then gives nothing.
pub proof fn lemma_timeout_is_kept(c: ClientV, bytes: Seq<u8>, command: Seq<char>, now_ms: u64)
    ensures
        send_spec(c, command, now_ms).0.timeout_ms == c.timeout_ms,
        client_feed(c, bytes).0.timeout_ms == c.timeout_ms,
        timeout_spec(c, now_ms).0.timeout_ms == c.timeout_ms,
        c.timeout_ms == 0 ==> timeout_spec(c, now_ms) == (c, None::<ClientEventV>),
{
}

/// A `%exit` outside any block, or a line there that is not protocol, ends
/// the session with that reason, and nothing after it is routed.
pub proof fn lemma_exit_and_desync_end(pending: Seq<(u64, u64)>, evs: Seq<EventV>)
    requires
        evs.len() > 0,
    ensures
        match evs[0] {
            EventV::Exit { reason } => route(pending, evs) == (
                pending,
                true,
                seq![ClientEventV::Shutdown(ShutdownV::Exit(reason))],
            ),
            EventV::Unknown { line: l } => is_desync_line(l) ==> route(pending, evs) == (
                pending,
                true,
                seq![ClientEventV::Shutdown(ShutdownV::Desync { line: l })],
            ),
            _ => true,
        },
{
}

/// What one `feed` gives: nothing once the session is closed; otherwise at
/// most one `Shutdown`, always the last event, and the session is closed
/// after it exactly when there was one.
pub proof fn lemma_feed_shutdown(c: ClientV, bytes: Seq<u8>)
    ensures
        c.closed ==> client_feed(c, bytes) == (c, Seq::<ClientEventV>::empty()),
        forall|i: int|
            0 <= i < client_feed(c, bytes).1.len() - 1 ==> !(#[trigger] client_feed(c, bytes).1[i] is Shutdown),
        !c.closed ==> (client_feed(c, bytes).0.closed <==> (client_feed(c, bytes).1.len() > 0
            && client_feed(c, bytes).1.last() is Shutdown)),
{
    if !c.closed {
        let (p, evs) = feed_spec(c.parser, bytes);
        lemma_route_shutdown_last(c.pending, evs);
    }
}

/// Over any sequence of calls, the accepted sends get the tags
/// `next_tag, next_tag + 1, …` in order (refused sends, feeds and timeout
/// checks take none), and the next tag then counts them all.
pub proof fn lemma_tags_count_sends(c: ClientV, ops: Seq<ClientOp>)
    requires
        c.next_tag + ops.len() <= u64::MAX,
    ensures
        issued_tags(c, ops).len() <= ops.len(),
        run_ops(c, ops).next_tag == c.next_tag + issued_tags(c, ops).len(),
        forall|i: int| 0 <= i < issued_tags(c, ops).len() ==> #[trigger] issued_tags(c, ops)[i] == c.next_tag + i,
    decreases ops.len(),
{
    if ops.len() > 0 {
        lemma_tags_count_sends(c, ops.drop_last());
    }
}

/// Over any sequence of calls the timeout stays the one the client was made
/// with; with `0`, no check ever gives an event.
pub proof fn lemma_timeout_off_for_good(c: ClientV, ops: Seq<ClientOp>, now_ms: u64)
    ensures
        run_ops(c, ops).timeout_ms == c.timeout_ms,
        c.timeout_ms == 0 ==> timeout_spec(run_ops(c, ops), now_ms) == (run_ops(c, ops), None::<ClientEventV>),
    decreases ops.len(),
{
    if ops.len() > 0 {
        lemma_timeout_off_for_good(c, ops.drop_last(), now_ms);
    }
}

/// On a client made with a timeout `t > 0`, the first command sent (at
/// `sent_ms`) gets tag 0, and a check at `now_ms` expires it exactly when
/// more than `t` milliseconds have passed.
pub proof fn lemma_first_command_expires(t: u64, command: Seq<char>, sent_ms: u64, now_ms: u64)
    requires
        t > 0,
        !has_line_break(command),
    ensures
        send_spec(fresh_client(t), command, sent_ms).1 matches Ok((tag, _)) && tag == 0,
        timeout_spec(send_spec(fresh_client(t), command, sent_ms).0, now_ms).1 == if now_ms.saturating_sub(sent_ms) > t {
            Some(ClientEventV::Shutdown(ShutdownV::CommandTimeout { tag: 0 }))
        } else {
            None
        },
{
}

} // verus!
