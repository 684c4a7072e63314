//! Model of a control session: the pane ↔ logical session map of the
//! frontend and window ↔ tab.
//!
//! It consumes the client's `ClientEvent`s and gives digested `ModelUpdate`s.
//! Each tmux pane is a logical session with a synthetic id, and that id is
//! **deterministic** (`{prefix}-p{pane}`): if a pane leaves a window and
//! appears in another (`break-pane`), the binding survives the remove/add
//! pair without losing the frontend session.
//!
//! Layouts arrive as strings (`%layout-change`) and are parsed with the
//! layout module; a corrupt layout gives a `Warning`, never a panic nor a
//! silent drop.
use std::collections::BTreeMap;
use vstd::prelude::*;
use vstd::std_specs::btree::spec_keys_iter;
use vstd::std_specs::iter::IteratorSpec;
use crate::text::{dec, push_dec, push_str, str_eq, string_of};
use crate::tmux::client::{ClientEvent, ClientEventV, ShutdownReason, ShutdownV};
use crate::tmux::layout::{layout_spec, panes_of, parse_layout, CellV, LayoutCell};
use crate::tmux::protocol::{opt_view, ControlEvent, EventV};

verus! {

broadcast use vstd::std_specs::btree::group_btree_axioms;

/// `u64` keys are totally ordered, so a `BTreeMap` walks them increasing.
proof fn lemma_u64_keys_ordered()
    ensures
        vstd::laws_cmp::obeys_cmp::<u64>(),
{
    broadcast use vstd::laws_cmp::group_laws_cmp;
}

/// Keys walked in increasing order are strictly increasing as numbers.
proof fn lemma_increasing_keys(s: Seq<&u64>)
    requires
        vstd::std_specs::btree::increasing_seq(s),
    ensures
        forall|i: int, j: int| 0 <= i < j < s.len() ==> *s[i] < *s[j],
{
    broadcast use vstd::laws_cmp::group_laws_cmp;
    lemma_u64_keys_ordered();
    assert(vstd::laws_cmp::obeys_cmp::<&u64>());
    assert forall|i: int, j: int| 0 <= i < j < s.len() implies *s[i] < *s[j] by {
        assert(vstd::std_specs::cmp::OrdSpec::cmp_spec(&s[i], &s[j]) is Less);
    }
}

pub open spec fn visited(s: Seq<&u64>, n: int, x: u64) -> bool {
    exists|j: int| 0 <= j < n && *s[j] == x
}


/// State of a tmux window (a frontend tab).
#[derive(Debug, Clone, PartialEq, Eq)]
pub struct WindowState {
    pub name: String,
    pub layout: Option<LayoutCell>,
    pub active_pane: Option<u64>,
}

pub struct WindowV {
    pub name: Seq<char>,
    pub layout: Option<CellV>,
    pub active_pane: Option<u64>,
}

pub open spec fn opt_cell_view(o: Option<LayoutCell>) -> Option<CellV> {
    match o {
        Some(c) => Some(c@),
        None => None,
    }
}

impl View for WindowState {
    type V = WindowV;

    open spec fn view(&self) -> WindowV {
        WindowV { name: self.name@, layout: opt_cell_view(self.layout), active_pane: self.active_pane }
    }
}

#[derive(Debug, Clone, PartialEq, Eq)]
struct PaneState {
    /// `None` = a pane seen (e.g. by `%output`) before its window is known.
    window: Option<u64>,
    logical_id: String,
}

/// A pane and its frontend logical session, as carried in the updates.
#[derive(Debug, Clone, PartialEq, Eq)]
pub struct PaneBinding {
    pub pane: u64,
    pub logical_id: String,
}

impl View for PaneBinding {
    type V = (u64, Seq<char>);

    open spec fn view(&self) -> (u64, Seq<char>) {
        (self.pane, self.logical_id@)
    }
}

pub open spec fn bindings_view(v: Seq<PaneBinding>) -> Seq<(u64, Seq<char>)> {
    v.map_values(|b: PaneBinding| b@)
}

/// A digested change of the model, ready to become an IPC event.
#[derive(Debug, Clone, PartialEq, Eq)]
pub enum ModelUpdate {
    SessionChanged { session: u64, name: String },
    WindowAdded { window: u64 },
    WindowRenamed { window: u64, name: String },
    /// The window closed; its panes die with it.
    WindowClosed { window: u64, removed_panes: Vec<PaneBinding> },
    /// Active window of the session (tab focus).
    ActiveWindowChanged { window: u64 },
    /// New layout of a window. `added` = panes new IN this window (just
    /// created or adopted); `removed` = no longer in this window.
    LayoutChanged { window: u64, layout: LayoutCell, added: Vec<PaneBinding>, removed: Vec<PaneBinding> },
    /// Active pane inside a window (split focus).
    ActivePaneChanged { window: u64, pane: u64 },
    /// Terminal bytes for the logical session of this pane.
    Output { pane: PaneBinding, bytes: Vec<u8> },
    /// Per-pane flow control (`%pause`/`%continue`).
    FlowPaused { pane: PaneBinding, paused: bool },
    /// Value of a format subscription (`refresh-client -B`).
    Subscription { name: String, value: String },
    /// Correlated response to one of our commands.
    CommandDone { tag: u64, success: bool, output: String },
    /// The control session ended: close every logical session.
    Ended { reason: ShutdownReason },
    /// Something odd but not fatal, for the diagnostic log.
    Warning { message: String },
}

pub enum UpdateV {
    SessionChanged { session: u64, name: Seq<char> },
    WindowAdded { window: u64 },
    WindowRenamed { window: u64, name: Seq<char> },
    WindowClosed { window: u64, removed_panes: Seq<(u64, Seq<char>)> },
    ActiveWindowChanged { window: u64 },
    LayoutChanged {
        window: u64,
        layout: CellV,
        added: Seq<(u64, Seq<char>)>,
        removed: Seq<(u64, Seq<char>)>,
    },
    ActivePaneChanged { window: u64, pane: u64 },
    Output { pane: (u64, Seq<char>), bytes: Seq<u8> },
    FlowPaused { pane: (u64, Seq<char>), paused: bool },
    Subscription { name: Seq<char>, value: Seq<char> },
    CommandDone { tag: u64, success: bool, output: Seq<char> },
    Ended { reason: ShutdownV },
    Warning { message: Seq<char> },
}

impl View for ModelUpdate {
    type V = UpdateV;

    open spec fn view(&self) -> UpdateV {
        match self {
            ModelUpdate::SessionChanged { session, name } => UpdateV::SessionChanged { session: *session, name: name@ },
            ModelUpdate::WindowAdded { window } => UpdateV::WindowAdded { window: *window },
            ModelUpdate::WindowRenamed { window, name } => UpdateV::WindowRenamed { window: *window, name: name@ },
            ModelUpdate::WindowClosed { window, removed_panes } => UpdateV::WindowClosed {
                window: *window,
                removed_panes: bindings_view(removed_panes@),
            },
            ModelUpdate::ActiveWindowChanged { window } => UpdateV::ActiveWindowChanged { window: *window },
            ModelUpdate::LayoutChanged { window, layout, added, removed } => UpdateV::LayoutChanged {
                window: *window,
                layout: layout@,
                added: bindings_view(added@),
                removed: bindings_view(removed@),
            },
            ModelUpdate::ActivePaneChanged { window, pane } => UpdateV::ActivePaneChanged { window: *window, pane: *pane },
            ModelUpdate::Output { pane, bytes } => UpdateV::Output { pane: pane@, bytes: bytes@ },
            ModelUpdate::FlowPaused { pane, paused } => UpdateV::FlowPaused { pane: pane@, paused: *paused },
            ModelUpdate::Subscription { name, value } => UpdateV::Subscription { name: name@, value: value@ },
            ModelUpdate::CommandDone { tag, success, output } => UpdateV::CommandDone {
                tag: *tag,
                success: *success,
                output: output@,
            },
            ModelUpdate::Ended { reason } => UpdateV::Ended { reason: reason@ },
            ModelUpdate::Warning { message } => UpdateV::Warning { message: message@ },
        }
    }
}

pub open spec fn updates_view(v: Seq<ModelUpdate>) -> Seq<UpdateV> {
    v.map_values(|u: ModelUpdate| u@)
}

/// Model of one `tmux -CC` session.
#[derive(Debug)]
pub struct TmuxManager {
    /// Prefix of the logical ids (e.g. the SSH connection's session id).
    prefix: String,
    session: Option<(u64, String)>,
    windows: BTreeMap<u64, WindowState>,
    panes: BTreeMap<u64, PaneState>,
}

pub struct ManagerV {
    pub prefix: Seq<char>,
    pub session: Option<(u64, Seq<char>)>,
    pub windows: Map<u64, WindowV>,
    /// The window of each known pane (`None` while unknown).
    pub panes: Map<u64, Option<u64>>,
}

pub open spec fn session_view(s: Option<(u64, String)>) -> Option<(u64, Seq<char>)> {
    match s {
        Some((id, name)) => Some((id, name@)),
        None => None,
    }
}

impl View for TmuxManager {
    type V = ManagerV;

    closed spec fn view(&self) -> ManagerV {
        ManagerV {
            prefix: self.prefix@,
            session: session_view(self.session),
            windows: self.windows@.map_values(|w: WindowState| w@),
            panes: self.panes@.map_values(|p: PaneState| p.window),
        }
    }
}

// ─── Specification ───────────────────────────────────────────────────────────

/// The logical session id of a pane: `{prefix}-p{pane}`.
pub open spec fn lid(prefix: Seq<char>, pane: u64) -> Seq<char> {
    prefix + "-p"@ + dec(pane as nat)
}

pub open spec fn binding_of(prefix: Seq<char>, pane: u64) -> (u64, Seq<char>) {
    (pane, lid(prefix, pane))
}

pub open spec fn bindings_of(prefix: Seq<char>, ids: Seq<u64>) -> Seq<(u64, Seq<char>)> {
    ids.map_values(|p: u64| binding_of(prefix, p))
}

pub open spec fn strictly_increasing(s: Seq<u64>) -> bool {
    forall|i: int, j: int| 0 <= i < j < s.len() ==> s[i] < s[j]
}

/// `ids` lists the set `r` in increasing order.
pub open spec fn sorted_listing(ids: Seq<u64>, r: Set<u64>) -> bool {
    strictly_increasing(ids) && forall|p: u64| ids.contains(p) <==> r.contains(p)
}

pub open spec fn empty_window() -> WindowV {
    WindowV { name: seq![], layout: None, active_pane: None }
}

/// Registers a pane with no window if it is not known yet.
pub open spec fn bind(m: ManagerV, pane: u64) -> ManagerV {
    if m.panes.contains_key(pane) {
        m
    } else {
        ManagerV { panes: m.panes.insert(pane, None), ..m }
    }
}

pub open spec fn window_or_new(m: ManagerV, window: u64) -> WindowV {
    if m.windows.contains_key(window) {
        m.windows[window]
    } else {
        empty_window()
    }
}

/// The panes of a layout join its window in order: each pane not already in
/// it moves in (created if unknown) and is reported as added.
pub open spec fn adopt(panes: Map<u64, Option<u64>>, ids: Seq<u64>, window: u64) -> (Map<u64, Option<u64>>, Seq<u64>)
    decreases ids.len(),
{
    if ids.len() == 0 {
        (panes, seq![])
    } else {
        let prev = adopt(panes, ids.drop_last(), window);
        let id = ids.last();
        if prev.0.contains_key(id) && prev.0[id] == Some(window) {
            prev
        } else {
            (prev.0.insert(id, Some(window)), prev.1.push(id))
        }
    }
}

/// Panes of `window` that the new layout no longer lists.
pub open spec fn gone_panes(panes: Map<u64, Option<u64>>, window: u64, keep: Seq<u64>) -> Set<u64> {
    Set::new(|p: u64| panes.contains_key(p) && panes[p] == Some(window) && !keep.contains(p))
}

pub open spec fn msg_bad_layout(window: u64, e: Seq<char>) -> Seq<char> {
    "layout de @"@ + dec(window as nat) + " ilegible: "@ + e
}

/// The increasing listing of a finite set of pane ids.
pub open spec fn sorted_of(r: Set<u64>) -> Seq<u64> {
    choose|q: Seq<u64>| sorted_listing(q, r)
}

/// `%layout-change` on the model: the state after and the updates.
pub open spec fn layout_apply(m: ManagerV, window: u64, layout: Seq<char>) -> (ManagerV, Seq<UpdateV>) {
    match layout_spec(layout) {
        Err(e) => (m, seq![UpdateV::Warning { message: msg_bad_layout(window, e) }]),
        Ok(cell) => {
            let ids = panes_of(cell);
            let (p1, added) = adopt(m.panes, ids, window);
            let gone = gone_panes(p1, window, ids);
            let w = window_or_new(m, window);
            (
                ManagerV {
                    panes: p1.remove_keys(gone),
                    windows: m.windows.insert(window, WindowV { layout: Some(cell), ..w }),
                    ..m
                },
                seq![
                    UpdateV::LayoutChanged {
                        window,
                        layout: cell,
                        added: bindings_of(m.prefix, added),
                        removed: bindings_of(m.prefix, sorted_of(gone)),
                    },
                ],
            )
        },
    }
}

pub open spec fn layout_ok(m: ManagerV, window: u64, layout: Seq<char>, m2: ManagerV, out: Seq<UpdateV>) -> bool {
    layout_apply(m, window, layout) == (m2, out)
}

/// `%window-close` on the model: the window and all its panes go.
pub open spec fn close_apply(m: ManagerV, window: u64) -> (ManagerV, Seq<UpdateV>) {
    let gone = gone_panes(m.panes, window, Seq::empty());
    (
        ManagerV { panes: m.panes.remove_keys(gone), windows: m.windows.remove(window), ..m },
        seq![UpdateV::WindowClosed { window, removed_panes: bindings_of(m.prefix, sorted_of(gone)) }],
    )
}

pub open spec fn close_ok(m: ManagerV, window: u64, m2: ManagerV, out: Seq<UpdateV>) -> bool {
    close_apply(m, window) == (m2, out)
}

pub open spec fn msg_rename_without_session(name: Seq<char>) -> Seq<char> {
    "session-renamed sin sesión anunciada: "@ + name
}

pub open spec fn msg_unknown(line: Seq<char>) -> Seq<char> {
    "notificación no reconocida: "@ + line
}

/// The effect of a notification on the model: the state after and the
/// updates given.
pub open spec fn notification_apply(m: ManagerV, ev: EventV) -> (ManagerV, Seq<UpdateV>) {
    match ev {
        EventV::Output { pane, bytes } => (bind(m, pane), seq![UpdateV::Output { pane: binding_of(m.prefix, pane), bytes }]),
        EventV::ExtendedOutput { pane, bytes } => (
            bind(m, pane),
            seq![UpdateV::Output { pane: binding_of(m.prefix, pane), bytes }],
        ),
        EventV::LayoutChange { window, layout, .. } => layout_apply(m, window, layout),
        EventV::WindowAdd { window } => (
            ManagerV { windows: m.windows.insert(window, window_or_new(m, window)), ..m },
            seq![UpdateV::WindowAdded { window }],
        ),
        EventV::WindowRenamed { window, name } => (
            ManagerV { windows: m.windows.insert(window, WindowV { name, ..window_or_new(m, window) }), ..m },
            seq![UpdateV::WindowRenamed { window, name }],
        ),
        EventV::WindowClose { window } => close_apply(m, window),
        EventV::WindowPaneChanged { window, pane } => {
            let m1 = bind(m, pane);
            (
                if m1.windows.contains_key(window) {
                    ManagerV {
                        windows: m1.windows.insert(window, WindowV { active_pane: Some(pane), ..m1.windows[window] }),
                        ..m1
                    }
                } else {
                    m1
                },
                seq![UpdateV::ActivePaneChanged { window, pane }],
            )
        },
        EventV::SessionChanged { session, name } => (
            ManagerV { session: Some((session, name)), ..m },
            seq![UpdateV::SessionChanged { session, name }],
        ),
        EventV::SessionRenamed { name } => match m.session {
            Some((id, _)) => (
                ManagerV { session: Some((id, name)), ..m },
                seq![UpdateV::SessionChanged { session: id, name }],
            ),
            None => (m, seq![UpdateV::Warning { message: msg_rename_without_session(name) }]),
        },
        EventV::SessionWindowChanged { window, .. } => (m, seq![UpdateV::ActiveWindowChanged { window }]),
        EventV::SubscriptionChanged { name, value } => (m, seq![UpdateV::Subscription { name, value }]),
        EventV::Pause { pane } => (
            bind(m, pane),
            seq![UpdateV::FlowPaused { pane: binding_of(m.prefix, pane), paused: true }],
        ),
        EventV::Continue { pane } => (
            bind(m, pane),
            seq![UpdateV::FlowPaused { pane: binding_of(m.prefix, pane), paused: false }],
        ),
        EventV::Unknown { line } => (m, seq![UpdateV::Warning { message: msg_unknown(line) }]),
        EventV::Exit { reason } => (m, seq![UpdateV::Ended { reason: ShutdownV::Exit(reason) }]),
        _ => (m, Seq::<UpdateV>::empty()),
    }
}

pub open spec fn notification_ok(m: ManagerV, ev: EventV, m2: ManagerV, out: Seq<UpdateV>) -> bool {
    notification_apply(m, ev) == (m2, out)
}

/// The effect of a client event on the model.
pub open spec fn apply_spec(m: ManagerV, ev: ClientEventV) -> (ManagerV, Seq<UpdateV>) {
    match ev {
        ClientEventV::CommandDone { tag, success, output } => (m, seq![UpdateV::CommandDone { tag, success, output }]),
        ClientEventV::Shutdown(reason) => (m, seq![UpdateV::Ended { reason }]),
        ClientEventV::Notification(e) => notification_apply(m, e),
    }
}

pub open spec fn apply_ok(m: ManagerV, ev: ClientEventV, m2: ManagerV, out: Seq<UpdateV>) -> bool {
    apply_spec(m, ev) == (m2, out)
}

/// Two increasing listings of the same set are the same sequence.
pub proof fn lemma_sorted_listing_unique(a: Seq<u64>, b: Seq<u64>, r: Set<u64>)
    requires
        sorted_listing(a, r),
        sorted_listing(b, r),
    ensures
        a == b,
    decreases a.len(),
{
    if a.len() == 0 {
        if b.len() > 0 {
            assert(b.contains(b[0]));
        }
    } else {
        assert(a.contains(a[0]));
        assert(b.len() > 0);
        assert(b.contains(b[0]));
        let i = choose|i: int| 0 <= i < a.len() && a[i] == b[0];
        let j = choose|j: int| 0 <= j < b.len() && b[j] == a[0];
        assert(a[0] == b[0]);
        let r2 = r.remove(a[0]);
        let a2 = a.drop_first();
        let b2 = b.drop_first();
        assert forall|p: u64| a2.contains(p) <==> r2.contains(p) by {
            if a2.contains(p) {
                let k = choose|k: int| 0 <= k < a2.len() && a2[k] == p;
                assert(a[k + 1] == p);
            }
            if r2.contains(p) {
                assert(a.contains(p));
                let k = choose|k: int| 0 <= k < a.len() && a[k] == p;
                assert(k != 0);
                assert(a2[k - 1] == p);
            }
        }
        assert forall|p: u64| b2.contains(p) <==> r2.contains(p) by {
            if b2.contains(p) {
                let k = choose|k: int| 0 <= k < b2.len() && b2[k] == p;
                assert(b[k + 1] == p);
            }
            if r2.contains(p) {
                assert(b.contains(p));
                let k = choose|k: int| 0 <= k < b.len() && b[k] == p;
                assert(k != 0);
                assert(b2[k - 1] == p);
            }
        }
        lemma_sorted_listing_unique(a2, b2, r2);
        assert(a =~= seq![a[0]] + a2);
        assert(b =~= seq![b[0]] + b2);
    }
}

/// A listing the code built is the one the specification picks.
proof fn lemma_sorted_of(q: Seq<u64>, r: Set<u64>)
    requires
        sorted_listing(q, r),
    ensures
        sorted_of(r) == q,
{
    lemma_sorted_listing_unique(sorted_of(r), q, r);
}

pub proof fn lemma_contains_push<A>(s: Seq<A>, x: A)
    ensures
        forall|y: A| #[trigger] s.push(x).contains(y) <==> (s.contains(y) || y == x),
{
    assert forall|y: A| #[trigger] s.push(x).contains(y) <==> (s.contains(y) || y == x) by {
        if s.push(x).contains(y) && y != x {
            let i = choose|i: int| 0 <= i < s.push(x).len() && s.push(x)[i] == y;
            assert(i < s.len());
            assert(s[i] == y);
        }
        if s.contains(y) {
            let i = choose|i: int| 0 <= i < s.len() && s[i] == y;
            assert(s.push(x)[i] == y);
        }
        if y == x {
            assert(s.push(x)[s.len() as int] == y);
        }
    }
}

// ─── Map lemmas ──────────────────────────────────────────────────────────────

proof fn lemma_map_values_insert<V, W>(m: Map<u64, V>, k: u64, v: V, f: spec_fn(V) -> W)
    ensures
        m.insert(k, v).map_values(f) == m.map_values(f).insert(k, f(v)),
{
    assert(m.insert(k, v).map_values(f) =~= m.map_values(f).insert(k, f(v)));
}

proof fn lemma_map_values_remove<V, W>(m: Map<u64, V>, k: u64, f: spec_fn(V) -> W)
    ensures
        m.remove(k).map_values(f) == m.map_values(f).remove(k),
{
    assert(m.remove(k).map_values(f) =~= m.map_values(f).remove(k));
}

// ─── Executable model ────────────────────────────────────────────────────────

impl TmuxManager {
    /// Every known pane carries the logical id `{prefix}-p{pane}`.
    pub closed spec fn wf(&self) -> bool {
        forall|p: u64| #[trigger] self.panes@.contains_key(p) ==> self.panes@[p].logical_id@ == lid(self.prefix@, p)
    }

    pub fn new(prefix: &str) -> (r: Self)
        ensures
            r.wf(),
            r@ == (ManagerV {
                prefix: prefix@,
                session: None,
                windows: Map::empty(),
                panes: Map::empty(),
            }),
    {
        let r = TmuxManager {
            prefix: string_of(&crate::text::chars_of(prefix)),
            session: None,
            windows: BTreeMap::new(),
            panes: BTreeMap::new(),
        };
        assert(r@.windows =~= Map::<u64, WindowV>::empty());
        assert(r@.panes =~= Map::<u64, Option<u64>>::empty());
        r
    }

    /// Logical session id of a pane; deterministic on purpose.
    pub fn logical_id_for(&self, pane: u64) -> (r: String)
        ensures
            r@ == lid(self@.prefix, pane),
    {
        let mut out = self.prefix.clone();
        push_str(&mut out, "-p");
        push_dec(&mut out, pane);
        assert(out@ =~= lid(self@.prefix, pane));
        out
    }

    /// Logical session of a pane already seen, if any.
    pub fn logical_id(&self, pane: u64) -> (r: Option<&str>)
        requires
            self.wf(),
        ensures
            match r {
                Some(s) => self@.panes.contains_key(pane) && s@ == lid(self@.prefix, pane),
                None => !self@.panes.contains_key(pane),
            },
    {
        proof {
            lemma_u64_keys_ordered();
        }
        match self.panes.get(&pane) {
            Some(p) => Some(p.logical_id.as_str()),
            None => None,
        }
    }

    /// Pane of a logical session (to route input: `send-keys`).
    pub fn pane_by_logical(&self, logical_id: &str) -> (r: Option<u64>)
        requires
            self.wf(),
        ensures
            match r {
                Some(p) => self@.panes.contains_key(p) && lid(self@.prefix, p) == logical_id@,
                None => forall|p: u64| #[trigger] self@.panes.contains_key(p) ==> lid(self@.prefix, p) != logical_id@,
            },
    {
        proof {
            lemma_u64_keys_ordered();
            vstd::std_specs::btree::axiom_spec_keys_iter(&self.panes);
        }
        let ghost sq0 = spec_keys_iter(&self.panes).remaining();
        let ghost mut cnt: int = 0;
        for k in it: self.panes.keys()
            invariant
                it.seq() == sq0,
                sq0 == spec_keys_iter(&self.panes).remaining(),
                cnt == it.index(),
                self.wf(),
                forall|j: int| 0 <= j < cnt ==> lid(self@.prefix, *#[trigger] sq0[j]) != logical_id@,
        {
            let ghost n = cnt;
            assert(*k == *sq0[n]);
            assert(sq0.unref().to_set().contains(*k)) by {
                assert(sq0.unref()[n] == *k);
            }
            let st = self.panes.get(k);
            match st {
                Some(p) => {
                    if str_eq(p.logical_id.as_str(), logical_id) {
                        return Some(*k);
                    }
                },
                None => {},
            }
            proof {
                cnt = cnt + 1;
            }
        }
        proof {
            assert forall|p: u64| #[trigger] self@.panes.contains_key(p) implies lid(self@.prefix, p) != logical_id@ by {
                assert(sq0.unref().to_set().contains(p));
                let j = choose|j: int| 0 <= j < sq0.unref().len() && sq0.unref()[j] == p;
                assert(*sq0[j] == p);
            }
        }
        None
    }

    /// The current tmux session (`$id`, name), if announced.
    pub fn session(&self) -> (r: Option<(u64, &str)>)
        ensures
            match r {
                Some((id, name)) => self@.session == Some((id, name@)),
                None => self@.session is None,
            },
    {
        match &self.session {
            Some((id, name)) => Some((*id, name.as_str())),
            None => None,
        }
    }

    /// Known windows in id order.
    pub fn windows(&self) -> (r: Vec<(u64, &WindowState)>)
        ensures
            strictly_increasing(r@.map_values(|e: (u64, &WindowState)| e.0)),
            forall|w: u64| #[trigger] self@.windows.contains_key(w) <==> exists|i: int| 0 <= i < r@.len() && r@[i].0 == w,
            forall|i: int| 0 <= i < r@.len() ==> self@.windows.contains_key(r@[i].0) && (#[trigger] r@[i]).1@ == self@.windows[r@[i].0],
    {
        proof {
            lemma_u64_keys_ordered();
            vstd::std_specs::btree::axiom_spec_keys_iter(&self.windows);
            lemma_increasing_keys(spec_keys_iter(&self.windows).remaining());
        }
        let ghost sq0 = spec_keys_iter(&self.windows).remaining();
        let ghost mut cnt: int = 0;
        let mut out: Vec<(u64, &WindowState)> = Vec::new();
        for k in it: self.windows.keys()
            invariant
                it.seq() == sq0,
                sq0 == spec_keys_iter(&self.windows).remaining(),
                forall|i: int, j: int| 0 <= i < j < sq0.len() ==> *sq0[i] < *sq0[j],
                cnt == it.index(),
                out@.len() == cnt,
                forall|i: int| 0 <= i < cnt ==> (#[trigger] out@[i]).0 == *sq0[i],
                forall|i: int| 0 <= i < cnt ==> self@.windows.contains_key(out@[i].0) && (#[trigger] out@[i]).1@ == self@.windows[out@[i].0],
        {
            let ghost n = cnt;
            assert(*k == *sq0[n]);
            assert(sq0.unref().to_set().contains(*k)) by {
                assert(sq0.unref()[n] == *k);
            }
            match self.windows.get(k) {
                Some(w) => {
                    out.push((*k, w));
                },
                None => {
                    assert(false);
                },
            }
            proof {
                cnt = cnt + 1;
            }
        }
        proof {
            let ids = out@.map_values(|e: (u64, &WindowState)| e.0);
            assert forall|i: int, j: int| 0 <= i < j < ids.len() implies ids[i] < ids[j] by {
                assert(ids[i] == *sq0[i]);
                assert(ids[j] == *sq0[j]);
            }
            assert forall|w: u64| #[trigger] self@.windows.contains_key(w) <==> exists|i: int| 0 <= i < out@.len() && out@[i].0 == w by {
                if self@.windows.contains_key(w) {
                    assert(sq0.unref().to_set().contains(w));
                    let j = choose|j: int| 0 <= j < sq0.unref().len() && sq0.unref()[j] == w;
                    assert(out@[j].0 == w);
                }
            }
        }
        out
    }

    /// Registers a pane with no window if it is unknown, and gives its binding.
    fn binding(&mut self, pane: u64) -> (r: PaneBinding)
        requires
            old(self).wf(),
        ensures
            final(self).wf(),
            final(self)@ == bind(old(self)@, pane),
            r@ == binding_of(old(self)@.prefix, pane),
    {
        proof {
            lemma_u64_keys_ordered();
        }
        let logical_id = self.logical_id_for(pane);
        if !self.panes.contains_key(&pane) {
            let st = PaneState { window: None, logical_id: logical_id.clone() };
            proof {
                lemma_map_values_insert(self.panes@, pane, st, |p: PaneState| p.window);
            }
            self.panes.insert(pane, st);
        }
        PaneBinding { pane, logical_id }
    }

    /// The panes of `window` not in `keep`, in increasing order.
    fn window_panes_except(&self, window: u64, keep: &Vec<u64>) -> (r: Vec<u64>)
        ensures
            sorted_listing(r@, gone_panes(self@.panes, window, keep@)),
    {
        proof {
            lemma_u64_keys_ordered();
            vstd::std_specs::btree::axiom_spec_keys_iter(&self.panes);
            lemma_increasing_keys(spec_keys_iter(&self.panes).remaining());
        }
        let ghost g = gone_panes(self@.panes, window, keep@);
        let mut out: Vec<u64> = Vec::new();
        let ghost sq0 = spec_keys_iter(&self.panes).remaining();
        let ghost mut cnt: int = 0;
        for k in it: self.panes.keys()
            invariant
                it.seq() == sq0,
                sq0 == spec_keys_iter(&self.panes).remaining(),
                forall|i: int, j: int| 0 <= i < j < sq0.len() ==> *sq0[i] < *sq0[j],
                cnt == it.index(),
                g == gone_panes(self@.panes, window, keep@),
                forall|i: int, j: int| 0 <= i < j < out@.len() ==> out@[i] < out@[j],
                forall|i: int, j: int| 0 <= i < out@.len() && cnt <= j < sq0.len() ==> #[trigger] out@[i] < *#[trigger] sq0[j],
                forall|x: u64| out@.contains(x) <==> (g.contains(x) && visited(sq0, cnt, x)),
        {
            let ghost n = cnt;
            let ghost before = out@;
            assert(*k == *sq0[n]);
            assert(sq0.unref().to_set().contains(*k)) by {
                assert(sq0.unref()[n] == *k);
            }
            let in_window = match self.panes.get(k) {
                Some(st) => match st.window {
                    Some(w) => w == window,
                    None => false,
                },
                None => false,
            };
            let mut kept = false;
            let mut j: usize = 0;
            while j < keep.len()
                invariant
                    j <= keep@.len(),
                    kept <==> keep@.take(j as int).contains(*k),
                decreases keep.len() - j,
            {
                if keep[j] == *k {
                    kept = true;
                }
                proof {
                    assert(keep@.take(j + 1) =~= keep@.take(j as int).push(keep@[j as int]));
                    lemma_contains_push(keep@.take(j as int), keep@[j as int]);
                }
                j += 1;
            }
            assert(keep@.take(keep@.len() as int) =~= keep@);
            let hit = in_window && !kept;
            assert(hit <==> g.contains(*k));
            if hit {
                out.push(*k);
            }
            assert forall|x: u64| visited(sq0, n + 1, x) <==> (visited(sq0, n, x) || *sq0[n] == x) by {
                if visited(sq0, n + 1, x) && *sq0[n] != x {
                    let jj = choose|jj: int| 0 <= jj < n + 1 && *sq0[jj] == x;
                    assert(jj < n);
                }
                if *sq0[n] == x {
                    assert(0 <= n < n + 1 && *sq0[n] == x);
                }
            }
            assert forall|x: u64| out@.contains(x) <==> (before.contains(x) || (hit && x == *k)) by {
                if hit && x == *k {
                    assert(out@[out@.len() - 1] == x);
                }
                if out@.contains(x) && !before.contains(x) {
                    let i = choose|i: int| 0 <= i < out@.len() && out@[i] == x;
                    if i < before.len() {
                        assert(before[i] == x);
                    }
                }
                if before.contains(x) {
                    let i = choose|i: int| 0 <= i < before.len() && before[i] == x;
                    assert(out@[i] == x);
                }
            }
            assert forall|x: u64| out@.contains(x) <==> (g.contains(x) && visited(sq0, n + 1, x)) by {
                assert(before.contains(x) <==> (g.contains(x) && visited(sq0, n, x)));
            }
            proof {
                cnt = cnt + 1;
            }
        }
        proof {
            assert forall|x: u64| g.contains(x) implies visited(sq0, cnt, x) by {
                assert(sq0.unref().to_set().contains(x));
                let j = choose|j: int| 0 <= j < sq0.unref().len() && sq0.unref()[j] == x;
                assert(*sq0[j] == x);
            }
        }
        out
    }

    /// Removes the listed panes and gives their bindings, in the same order.
    fn remove_panes(&mut self, ids: &Vec<u64>) -> (r: Vec<PaneBinding>)
        requires
            old(self).wf(),
            strictly_increasing(ids@),
            forall|i: int| 0 <= i < ids@.len() ==> old(self)@.panes.contains_key(#[trigger] ids@[i]),
        ensures
            final(self).wf(),
            final(self)@ == (ManagerV { panes: old(self)@.panes.remove_keys(ids@.to_set()), ..old(self)@ }),
            bindings_view(r@) == bindings_of(old(self)@.prefix, ids@),
    {
        proof {
            lemma_u64_keys_ordered();
        }
        let ghost m0 = self@;
        let mut out: Vec<PaneBinding> = Vec::new();
        let mut i: usize = 0;
        assert(ids@.take(0).to_set() =~= Set::<u64>::empty());
        assert(m0.panes.remove_keys(Set::<u64>::empty()) =~= m0.panes);
        assert(bindings_view(out@) =~= bindings_of(m0.prefix, ids@.take(0)));
        while i < ids.len()
            invariant
                i <= ids@.len(),
                strictly_increasing(ids@),
                forall|k: int| 0 <= k < ids@.len() ==> m0.panes.contains_key(#[trigger] ids@[k]),
                self.wf(),
                self@ == (ManagerV { panes: m0.panes.remove_keys(ids@.take(i as int).to_set()), ..m0 }),
                bindings_view(out@) == bindings_of(m0.prefix, ids@.take(i as int)),
            decreases ids.len() - i,
        {
            let id = ids[i];
            let ghost t = ids@.take(i as int);
            assert(!t.contains(id)) by {
                if t.contains(id) {
                    let k = choose|k: int| 0 <= k < t.len() && t[k] == id;
                    assert(ids@[k] < ids@[i as int]);
                }
            }
            assert(m0.panes.remove_keys(t.to_set()).contains_key(id));
            assert(self@.panes.contains_key(id));
            assert(self.panes@.contains_key(id));
            let ghost pm = self.panes@;
            let removed = self.panes.remove(&id);
            match removed {
                Some(st) => {
                    proof {
                        lemma_map_values_remove(pm, id, |p: PaneState| p.window);
                        assert(ids@.take(i + 1) =~= t.push(id));
                        lemma_contains_push(t, id);
                        assert(ids@.take(i + 1).to_set() =~= t.to_set().insert(id));
                        assert(m0.panes.remove_keys(ids@.take(i + 1).to_set()) =~= m0.panes.remove_keys(t.to_set()).remove(id));
                    }
                    let b = PaneBinding { pane: id, logical_id: st.logical_id };
                    let ghost ob = bindings_view(out@);
                    out.push(b);
                    proof {
                        assert(ids@.take(i + 1) =~= t.push(id));
                        assert(bindings_view(out@) =~= ob.push(binding_of(m0.prefix, id)));
                        assert(bindings_of(m0.prefix, ids@.take(i + 1)) =~= bindings_of(m0.prefix, t).push(binding_of(m0.prefix, id)));
                    }
                },
                None => {
                    assert(false);
                },
            }
            i += 1;
        }
        assert(ids@.take(ids@.len() as int) =~= ids@);
        out
    }

    /// Takes a window out of the map (or a fresh empty one).
    fn take_window(&mut self, window: u64) -> (r: WindowState)
        requires
            old(self).wf(),
        ensures
            final(self).wf(),
            r@ == window_or_new(old(self)@, window),
            final(self)@ == (ManagerV { windows: old(self)@.windows.remove(window), ..old(self)@ }),
    {
        proof {
            lemma_u64_keys_ordered();
            lemma_map_values_remove(self.windows@, window, |w: WindowState| w@);
        }
        match self.windows.remove(&window) {
            Some(w) => w,
            None => {
                assert(self.windows@ == old(self).windows@);
                let w = WindowState { name: String::new(), layout: None, active_pane: None };
                assert(w@ == empty_window());
                w
            },
        }
    }

    /// Puts a window back.
    fn put_window(&mut self, window: u64, w: WindowState)
        requires
            old(self).wf(),
        ensures
            final(self).wf(),
            final(self)@ == (ManagerV { windows: old(self)@.windows.insert(window, w@), ..old(self)@ }),
    {
        proof {
            lemma_u64_keys_ordered();
            lemma_map_values_insert(self.windows@, window, w, |w: WindowState| w@);
        }
        self.windows.insert(window, w);
    }
}

impl TmuxManager {
    fn apply_layout(&mut self, window: u64, layout_str: &str) -> (r: Vec<ModelUpdate>)
        requires
            old(self).wf(),
        ensures
            final(self).wf(),
            layout_ok(old(self)@, window, layout_str@, final(self)@, updates_view(r@)),
    {
        proof {
            lemma_u64_keys_ordered();
        }
        let cell = match parse_layout(layout_str) {
            Ok(c) => c,
            Err(e) => {
                let mut msg = String::new();
                push_str(&mut msg, "layout de @");
                push_dec(&mut msg, window);
                push_str(&mut msg, " ilegible: ");
                push_str(&mut msg, e.as_str());
                assert(msg@ =~= msg_bad_layout(window, e@));
                let r = vec![ModelUpdate::Warning { message: msg }];
                assert(updates_view(r@) =~= seq![UpdateV::Warning { message: msg_bad_layout(window, e@) }]);
                return r;
            },
        };
        let new_ids = cell.pane_ids();
        let ghost m0 = self@;
        let mut added: Vec<PaneBinding> = Vec::new();
        let mut i: usize = 0;
        assert(new_ids@.take(0) =~= Seq::<u64>::empty());
        assert(bindings_view(added@) =~= bindings_of(m0.prefix, Seq::<u64>::empty()));
        while i < new_ids.len()
            invariant
                i <= new_ids@.len(),
                self.wf(),
                self@ == (ManagerV { panes: adopt(m0.panes, new_ids@.take(i as int), window).0, ..m0 }),
                bindings_view(added@) == bindings_of(m0.prefix, adopt(m0.panes, new_ids@.take(i as int), window).1),
            decreases new_ids.len() - i,
        {
            let id = new_ids[i];
            let ghost t = new_ids@.take(i as int);
            assert(new_ids@.take(i + 1).drop_last() =~= t);
            assert(new_ids@.take(i + 1).last() == id);
            let needs = match self.panes.get(&id) {
                Some(st) => match st.window {
                    Some(w) => w != window,
                    None => true,
                },
                None => true,
            };
            if needs {
                let logical_id = self.logical_id_for(id);
                let st = PaneState { window: Some(window), logical_id: logical_id.clone() };
                proof {
                    lemma_map_values_insert(self.panes@, id, st, |p: PaneState| p.window);
                }
                self.panes.insert(id, st);
                let ghost ob = bindings_view(added@);
                added.push(PaneBinding { pane: id, logical_id });
                proof {
                    let a = adopt(m0.panes, t, window).1;
                    assert(bindings_view(added@) =~= ob.push(binding_of(m0.prefix, id)));
                    assert(bindings_of(m0.prefix, a.push(id)) =~= bindings_of(m0.prefix, a).push(binding_of(m0.prefix, id)));
                }
            }
            i += 1;
        }
        assert(new_ids@.take(new_ids@.len() as int) =~= new_ids@);
        let gone = self.window_panes_except(window, &new_ids);
        proof {
            assert forall|k: int| 0 <= k < gone@.len() implies self@.panes.contains_key(#[trigger] gone@[k]) by {
                assert(gone@.contains(gone@[k]));
            }
        }
        let removed = self.remove_panes(&gone);
        let mut w = self.take_window(window);
        w.layout = Some(cell.clone());
        self.put_window(window, w);
        let ghost cv = cell@;
        let r = vec![ModelUpdate::LayoutChanged { window, layout: cell, added, removed }];
        proof {
            let ids = panes_of(cv);
            let (p1, ad) = adopt(m0.panes, ids, window);
            let g = gone_panes(p1, window, ids);
            assert(gone@.to_set() =~= g);
            lemma_sorted_of(gone@, g);
            assert(self@.windows =~= m0.windows.insert(window, WindowV { layout: Some(cv), ..window_or_new(m0, window) }));
            assert(updates_view(r@) =~= seq![r@[0]@]);
            assert(r@[0]@ == UpdateV::LayoutChanged {
                window,
                layout: cv,
                added: bindings_of(m0.prefix, ad),
                removed: bindings_of(m0.prefix, sorted_of(g)),
            });
            assert(self@ == layout_apply(m0, window, layout_str@).0);
        }
        r
    }
}

impl TmuxManager {
    fn one(u: ModelUpdate) -> (r: Vec<ModelUpdate>)
        ensures
            updates_view(r@) == seq![u@],
    {
        let r = vec![u];
        assert(updates_view(r@) =~= seq![u@]);
        r
    }

    fn apply_notification(&mut self, ev: ControlEvent) -> (r: Vec<ModelUpdate>)
        requires
            old(self).wf(),
        ensures
            final(self).wf(),
            notification_ok(old(self)@, ev@, final(self)@, updates_view(r@)),
    {
        proof {
            lemma_u64_keys_ordered();
        }
        let ghost ev_v = ev@;
        let ghost m0 = self@;
        let r = match ev {
            ControlEvent::Output { pane, bytes } => {
                let binding = self.binding(pane);
                Self::one(ModelUpdate::Output { pane: binding, bytes })
            },
            ControlEvent::ExtendedOutput { pane, bytes } => {
                let binding = self.binding(pane);
                Self::one(ModelUpdate::Output { pane: binding, bytes })
            },
            ControlEvent::LayoutChange { window, layout, .. } => self.apply_layout(window, layout.as_str()),
            ControlEvent::WindowAdd { window } => {
                let w = self.take_window(window);
                self.put_window(window, w);
                assert(self@.windows =~= m0.windows.insert(window, window_or_new(m0, window)));
                Self::one(ModelUpdate::WindowAdded { window })
            },
            ControlEvent::WindowRenamed { window, name } => {
                let mut w = self.take_window(window);
                w.name = name.clone();
                self.put_window(window, w);
                assert(self@.windows =~= m0.windows.insert(window, WindowV { name: name@, ..window_or_new(m0, window) }));
                let r = Self::one(ModelUpdate::WindowRenamed { window, name });
                assert(notification_ok(m0, ev_v, self@, updates_view(r@)));
                r
            },
            ControlEvent::WindowClose { window } => {
                proof {
                    lemma_map_values_remove(self.windows@, window, |w: WindowState| w@);
                }
                self.windows.remove(&window);
                let keep: Vec<u64> = Vec::new();
                let gone = self.window_panes_except(window, &keep);
                proof {
                    assert forall|k: int| 0 <= k < gone@.len() implies self@.panes.contains_key(#[trigger] gone@[k]) by {
                        assert(gone@.contains(gone@[k]));
                    }
                }
                let removed_panes = self.remove_panes(&gone);
                proof {
                    assert(gone@.to_set() =~= gone_panes(m0.panes, window, Seq::empty()));
                    lemma_sorted_of(gone@, gone_panes(m0.panes, window, Seq::empty()));
                }
                let r = Self::one(ModelUpdate::WindowClosed { window, removed_panes });
                assert(close_ok(m0, window, self@, updates_view(r@)));
                r
            },
            ControlEvent::WindowPaneChanged { window, pane } => {
                self.binding(pane);
                let ghost m1 = self@;
                if self.windows.contains_key(&window) {
                    let mut w = self.take_window(window);
                    w.active_pane = Some(pane);
                    self.put_window(window, w);
                    assert(self@.windows =~= m1.windows.insert(window, WindowV { active_pane: Some(pane), ..m1.windows[window] }));
                }
                let r = Self::one(ModelUpdate::ActivePaneChanged { window, pane });
                assert(notification_ok(m0, ev_v, self@, updates_view(r@)));
                r
            },
            ControlEvent::SessionChanged { session, name } => {
                self.session = Some((session, name.clone()));
                Self::one(ModelUpdate::SessionChanged { session, name })
            },
            ControlEvent::SessionRenamed { name } => {
                match &self.session {
                    Some((id, _)) => {
                        let session = *id;
                        self.session = Some((session, name.clone()));
                        let r = Self::one(ModelUpdate::SessionChanged { session, name });
                        assert(notification_ok(m0, ev_v, self@, updates_view(r@)));
                        r
                    },
                    None => {
                        let mut message = String::new();
                        push_str(&mut message, "session-renamed sin sesión anunciada: ");
                        push_str(&mut message, name.as_str());
                        assert(message@ =~= msg_rename_without_session(name@));
                        Self::one(ModelUpdate::Warning { message })
                    },
                }
            },
            ControlEvent::SessionWindowChanged { window, .. } => Self::one(ModelUpdate::ActiveWindowChanged { window }),
            ControlEvent::SubscriptionChanged { name, value } => Self::one(ModelUpdate::Subscription { name, value }),
            ControlEvent::Pause { pane } => {
                let binding = self.binding(pane);
                Self::one(ModelUpdate::FlowPaused { pane: binding, paused: true })
            },
            ControlEvent::Continue { pane } => {
                let binding = self.binding(pane);
                Self::one(ModelUpdate::FlowPaused { pane: binding, paused: false })
            },
            ControlEvent::Unknown { line } => {
                let mut message = String::new();
                push_str(&mut message, "notificación no reconocida: ");
                push_str(&mut message, line.as_str());
                assert(message@ =~= msg_unknown(line@));
                Self::one(ModelUpdate::Warning { message })
            },
            ControlEvent::Exit { reason } => Self::one(ModelUpdate::Ended { reason: ShutdownReason::Exit(reason) }),
            _ => {
                let r: Vec<ModelUpdate> = Vec::new();
                assert(updates_view(r@) =~= Seq::<UpdateV>::empty());
                r
            },
        };
        assert(notification_ok(m0, ev_v, self@, updates_view(r@)));
        r
    }

    /// Consumes a client event and gives the changes of the model.
    pub fn apply(&mut self, event: ClientEvent) -> (r: Vec<ModelUpdate>)
        requires
            old(self).wf(),
        ensures
            final(self).wf(),
            apply_ok(old(self)@, event@, final(self)@, updates_view(r@)),
            final(self)@.prefix == old(self)@.prefix,
    {
        let ghost ev = event@;
        let r = match event {
            ClientEvent::CommandDone { tag, success, output } => Self::one(ModelUpdate::CommandDone { tag, success, output }),
            ClientEvent::Shutdown(reason) => Self::one(ModelUpdate::Ended { reason }),
            ClientEvent::Notification(ev) => self.apply_notification(ev),
        };
        proof {
            lemma_bindings_are_deterministic(old(self)@, ev, self@, updates_view(r@));
        }
        r
    }
}

// ─── Laws ────────────────────────────────────────────────────────────────────

/// The pane bindings an update carries.
pub open spec fn update_bindings(u: UpdateV) -> Seq<(u64, Seq<char>)> {
    match u {
        UpdateV::WindowClosed { removed_panes, .. } => removed_panes,
        UpdateV::LayoutChanged { added, removed, .. } => added + removed,
        UpdateV::Output { pane, .. } => seq![pane],
        UpdateV::FlowPaused { pane, .. } => seq![pane],
        _ => seq![],
    }
}

proof fn lemma_bindings_of_lid(prefix: Seq<char>, ids: Seq<u64>)
    ensures
        forall|j: int| 0 <= j < ids.len() ==> #[trigger] bindings_of(prefix, ids)[j] == binding_of(prefix, ids[j]),
        bindings_of(prefix, ids).len() == ids.len(),
{
}

/// Logical ids are deterministic: every binding any update carries is
/// `{prefix}-p{pane}` for its pane, and the prefix never changes. A pane
/// that leaves a window and shows up in another keeps its session.
pub proof fn lemma_bindings_are_deterministic(m: ManagerV, ev: ClientEventV, m2: ManagerV, out: Seq<UpdateV>)
    requires
        apply_ok(m, ev, m2, out),
    ensures
        m2.prefix == m.prefix,
        forall|i: int, j: int|
            0 <= i < out.len() && 0 <= j < update_bindings(out[i]).len() ==> (#[trigger] update_bindings(out[i])[j]).1
                == lid(m.prefix, update_bindings(out[i])[j].0),
{
    if let ClientEventV::Notification(e) = ev {
        match e {
            EventV::LayoutChange { window, layout, .. } => {
                if let Ok(cell) = layout_spec(layout) {
                    let ids = panes_of(cell);
                    let (p1, added) = adopt(m.panes, ids, window);
                    let gone = gone_panes(p1, window, ids);
                    let u = out[0];
                    if let UpdateV::LayoutChanged { added: a, removed: r, .. } = u {
                        let ids_r = choose|ids_r: Seq<u64>| sorted_listing(ids_r, gone) && r == bindings_of(m.prefix, ids_r);
                        lemma_bindings_of_lid(m.prefix, added);
                        lemma_bindings_of_lid(m.prefix, ids_r);
                        assert forall|j: int| 0 <= j < update_bindings(u).len() implies (#[trigger] update_bindings(u)[j]).1
                            == lid(m.prefix, update_bindings(u)[j].0) by {
                            if j < a.len() {
                                assert(update_bindings(u)[j] == a[j]);
                            } else {
                                assert(update_bindings(u)[j] == r[j - a.len()]);
                            }
                        }
                    }
                }
            },
            EventV::WindowClose { window } => {
                let gone = gone_panes(m.panes, window, Seq::empty());
                if let UpdateV::WindowClosed { removed_panes: r, .. } = out[0] {
                    let ids_r = choose|ids_r: Seq<u64>| sorted_listing(ids_r, gone) && r == bindings_of(m.prefix, ids_r);
                    lemma_bindings_of_lid(m.prefix, ids_r);
                }
            },
            _ => {},
        }
    }
}

/// `{prefix}-p{pane}` names one pane only, so a logical id leads back to
/// the pane it was made for.
pub proof fn lemma_logical_id_injective(prefix: Seq<char>, p: u64, q: u64)
    requires
        lid(prefix, p) == lid(prefix, q),
    ensures
        p == q,
{
    let k: int = prefix.len() as int + 2;
    reveal_strlit("-p");
    assert(lid(prefix, p).skip(k) =~= dec(p as nat));
    assert(lid(prefix, q).skip(k) =~= dec(q as nat));
    lemma_dec_injective(p as nat, q as nat);
}

pub proof fn lemma_dec_injective(a: nat, b: nat)
    requires
        dec(a) == dec(b),
    ensures
        a == b,
    decreases a,
{
    crate::text::lemma_dec_nonempty(a / 10);
    crate::text::lemma_dec_nonempty(b / 10);
    if a < 10 && b < 10 {
        assert(dec(a) == seq![crate::text::hex_char(a)]);
        assert(dec(b) == seq![crate::text::hex_char(b)]);
        assert(dec(a)[0] == crate::text::hex_char(a));
        assert(dec(b)[0] == crate::text::hex_char(b));
        lemma_digit_char_injective(a, b);
    } else if a >= 10 && b >= 10 {
        assert(dec(a).drop_last() =~= dec(a / 10));
        assert(dec(b).drop_last() =~= dec(b / 10));
        lemma_dec_injective(a / 10, b / 10);
        assert(dec(a) == dec(a / 10).push(crate::text::hex_char(a % 10)));
        assert(dec(b) == dec(b / 10).push(crate::text::hex_char(b % 10)));
        assert(dec(a).last() == dec(b).last());
        assert(dec(a / 10).push(crate::text::hex_char(a % 10)).last() == crate::text::hex_char(a % 10));
        assert(dec(b / 10).push(crate::text::hex_char(b % 10)).last() == crate::text::hex_char(b % 10));
        assert(a % 10 < 10 && b % 10 < 10);
        lemma_digit_char_injective(a % 10, b % 10);
    } else if a < 10 {
        assert(dec(a).len() == 1);
        assert(dec(b) == dec(b / 10).push(crate::text::hex_char(b % 10)));
        assert(dec(b).len() >= 2);
    } else {
        assert(dec(b).len() == 1);
        assert(dec(a) == dec(a / 10).push(crate::text::hex_char(a % 10)));
        assert(dec(a).len() >= 2);
    }
}

proof fn lemma_digit_char_injective(a: nat, b: nat)
    requires
        a < 10,
        b < 10,
        crate::text::hex_char(a) == crate::text::hex_char(b),
    ensures
        a == b,
{
}

/// What `adopt` does: the listed panes are in the window afterwards, the
/// others keep their state.
proof fn lemma_adopt(panes: Map<u64, Option<u64>>, ids: Seq<u64>, window: u64)
    ensures
        forall|p: u64| #[trigger] ids.contains(p) ==> adopt(panes, ids, window).0.contains_key(p)
            && adopt(panes, ids, window).0[p] == Some(window),
        forall|p: u64| !ids.contains(p) ==> (#[trigger] adopt(panes, ids, window).0.contains_key(p) <==> panes.contains_key(p)),
        forall|p: u64| !ids.contains(p) && panes.contains_key(p) ==> #[trigger] adopt(panes, ids, window).0[p] == panes[p],
    decreases ids.len(),
{
    if ids.len() > 0 {
        let t = ids.drop_last();
        lemma_adopt(panes, t, window);
        assert forall|p: u64| #[trigger] ids.contains(p) implies t.contains(p) || p == ids.last() by {
            let i = choose|i: int| 0 <= i < ids.len() && ids[i] == p;
            if i < ids.len() - 1 {
                assert(t[i] == p);
            }
        }
        assert forall|p: u64| t.contains(p) implies #[trigger] ids.contains(p) by {
            let i = choose|i: int| 0 <= i < t.len() && t[i] == p;
            assert(ids[i] == p);
        }
        assert(ids.contains(ids.last())) by {
            assert(ids[ids.len() - 1] == ids.last());
        }
    }
}

/// After a layout change the window holds exactly the panes of its layout:
/// new ones are adopted, missing ones are removed, panes of other windows
/// are untouched.
pub proof fn lemma_layout_sets_window_panes(m: ManagerV, window: u64, layout: Seq<char>, m2: ManagerV, out: Seq<UpdateV>)
    requires
        layout_ok(m, window, layout, m2, out),
        layout_spec(layout) is Ok,
    ensures
        forall|p: u64| (m2.panes.contains_key(p) && m2.panes[p] == Some(window)) <==> #[trigger] panes_of(
            layout_spec(layout)->Ok_0,
        ).contains(p),
        forall|p: u64| #[trigger] m.panes.contains_key(p) && m.panes[p] != Some(window) && !panes_of(layout_spec(layout)->Ok_0).contains(p)
            ==> m2.panes.contains_key(p) && m2.panes[p] == m.panes[p],
{
    let cell = layout_spec(layout)->Ok_0;
    let ids = panes_of(cell);
    lemma_adopt(m.panes, ids, window);
}

/// Closing a window drops it and every pane it held; other panes stay.
pub proof fn lemma_close_drops_panes(m: ManagerV, window: u64, m2: ManagerV, out: Seq<UpdateV>)
    requires
        close_ok(m, window, m2, out),
    ensures
        !m2.windows.contains_key(window),
        forall|p: u64| #[trigger] m2.panes.contains_key(p) ==> m2.panes[p] != Some(window),
        forall|p: u64| #[trigger] m.panes.contains_key(p) && m.panes[p] != Some(window) ==> m2.panes.contains_key(p),
{
}

/// `pane` belongs to `window` in a pane table.
pub open spec fn in_window(panes: Map<u64, Option<u64>>, pane: u64, window: u64) -> bool {
    panes.contains_key(pane) && panes[pane] == Some(window)
}

proof fn lemma_adopt_added(panes: Map<u64, Option<u64>>, ids: Seq<u64>, window: u64)
    requires
        ids.no_duplicates(),
    ensures
        adopt(panes, ids, window).1 == ids.filter(|p: u64| !in_window(panes, p, window)),
    decreases ids.len(),
{
    reveal(Seq::filter);
    if ids.len() > 0 {
        let t = ids.drop_last();
        let id = ids.last();
        assert(t.no_duplicates()) by {
            assert forall|i: int, j: int| 0 <= i < t.len() && 0 <= j < t.len() && i != j implies t[i] != t[j] by {
                assert(t[i] == ids[i] && t[j] == ids[j]);
            }
        }
        lemma_adopt_added(panes, t, window);
        lemma_adopt(panes, t, window);
        assert(!t.contains(id)) by {
            if t.contains(id) {
                let k = choose|k: int| 0 <= k < t.len() && t[k] == id;
                assert(ids[k] == ids[ids.len() - 1]);
            }
        }
    }
}

/// What a layout change of a window reports, for a layout whose panes are
/// distinct: `added` binds, in the layout's order, the panes that were not in
/// the window yet; `removed` binds, in increasing order, those that were and
/// that the layout no longer lists. Afterwards the removed panes are
/// forgotten and the listed ones are known, in the window.
pub proof fn lemma_layout_diff(m: ManagerV, window: u64, layout: Seq<char>, m2: ManagerV, out: Seq<UpdateV>)
    requires
        layout_ok(m, window, layout, m2, out),
        layout_spec(layout) is Ok,
        panes_of(layout_spec(layout)->Ok_0).no_duplicates(),
    ensures
        out == seq![
            UpdateV::LayoutChanged {
                window,
                layout: layout_spec(layout)->Ok_0,
                added: bindings_of(m.prefix, panes_of(layout_spec(layout)->Ok_0).filter(|p: u64| !in_window(m.panes, p, window))),
                removed: bindings_of(m.prefix, sorted_of(gone_panes(m.panes, window, panes_of(layout_spec(layout)->Ok_0)))),
            },
        ],
        forall|p: u64| #[trigger] gone_panes(m.panes, window, panes_of(layout_spec(layout)->Ok_0)).contains(p)
            ==> !m2.panes.contains_key(p),
        forall|p: u64| #[trigger] panes_of(layout_spec(layout)->Ok_0).contains(p) ==> in_window(m2.panes, p, window),
{
    let cell = layout_spec(layout)->Ok_0;
    let ids = panes_of(cell);
    lemma_adopt(m.panes, ids, window);
    lemma_adopt_added(m.panes, ids, window);
    let p1 = adopt(m.panes, ids, window).0;
    assert(gone_panes(p1, window, ids) =~= gone_panes(m.panes, window, ids));
}

/// The events a manager consumes, one after the other, on the model.
pub open spec fn apply_all(m: ManagerV, evs: Seq<ClientEventV>) -> ManagerV
    decreases evs.len(),
{
    if evs.len() == 0 {
        m
    } else {
        apply_spec(apply_all(m, evs.drop_last()), evs.last()).0
    }
}

/// The prefix a manager was made with survives any sequence of events, so
/// the logical id of a pane is `{prefix}-p{pane}` at every point.
pub proof fn lemma_prefix_is_kept(m: ManagerV, evs: Seq<ClientEventV>)
    ensures
        apply_all(m, evs).prefix == m.prefix,
    decreases evs.len(),
{
    if evs.len() > 0 {
        let before = apply_all(m, evs.drop_last());
        lemma_prefix_is_kept(m, evs.drop_last());
        let (m2, out) = apply_spec(before, evs.last());
        lemma_bindings_are_deterministic(before, evs.last(), m2, out);
    }
}

/// Flow control: `%pause` pauses a pane and `%continue` resumes it. Each
/// gives one `FlowPaused` update for the pane's binding, `paused` true for
/// the first and false for the second, and leaves the model the same (the
/// pane known, nothing else changed).
pub proof fn lemma_pause_then_continue(m: ManagerV, pane: u64)
    ensures
        ({
            let (mp, up) = apply_spec(m, ClientEventV::Notification(EventV::Pause { pane }));
            let (mc, uc) = apply_spec(m, ClientEventV::Notification(EventV::Continue { pane }));
            &&& up.len() == 1 && uc.len() == 1
            &&& up[0] == UpdateV::FlowPaused { pane: (pane, lid(m.prefix, pane)), paused: true }
            &&& uc[0] == UpdateV::FlowPaused { pane: (pane, lid(m.prefix, pane)), paused: false }
            &&& mp == mc
            &&& mc.panes.contains_key(pane)
            &&& mc.prefix == m.prefix && mc.windows == m.windows && mc.session == m.session
            &&& forall|q: u64| q != pane ==> (#[trigger] mc.panes.contains_key(q) <==> m.panes.contains_key(q))
        }),
{
}

/// Resuming a pane right after pausing it ends unpaused: the last
/// `FlowPaused` of the two calls says `paused == false`, and the model is as
/// after the pause alone.
pub proof fn lemma_continue_undoes_pause(m: ManagerV, pane: u64)
    ensures
        ({
            let (m1, u1) = apply_spec(m, ClientEventV::Notification(EventV::Pause { pane }));
            let (m2, u2) = apply_spec(m1, ClientEventV::Notification(EventV::Continue { pane }));
            &&& u1 == seq![UpdateV::FlowPaused { pane: (pane, lid(m.prefix, pane)), paused: true }]
            &&& u2 == seq![UpdateV::FlowPaused { pane: (pane, lid(m.prefix, pane)), paused: false }]
            &&& m2 == m1
        }),
{
}

/// Output of a pane reaches its binding with its bytes untouched, and the
/// pane is known afterwards (both kinds of output alike).
pub proof fn lemma_output_reaches_the_pane(m: ManagerV, pane: u64, bytes: Seq<u8>)
    ensures
        ({
            let (m1, u1) = apply_spec(m, ClientEventV::Notification(EventV::Output { pane, bytes }));
            let (m2, u2) = apply_spec(m, ClientEventV::Notification(EventV::ExtendedOutput { pane, bytes }));
            &&& u1 == seq![UpdateV::Output { pane: (pane, lid(m.prefix, pane)), bytes }]
            &&& u2 == u1 && m2 == m1
            &&& m1.panes.contains_key(pane)
            &&& (m.panes.contains_key(pane) ==> m1.panes[pane] == m.panes[pane])
            &&& m1.windows == m.windows && m1.session == m.session
        }),
{
}

/// A renamed window carries the new name and keeps its layout and active
/// pane; the update reports the same window and name.
pub proof fn lemma_window_rename_keeps_the_rest(m: ManagerV, window: u64, name: Seq<char>)
    ensures
        ({
            let (m1, u) = apply_spec(m, ClientEventV::Notification(EventV::WindowRenamed { window, name }));
            &&& u == seq![UpdateV::WindowRenamed { window, name }]
            &&& m1.windows.contains_key(window) && m1.windows[window].name == name
            &&& m.windows.contains_key(window) ==> m1.windows[window].layout == m.windows[window].layout
                && m1.windows[window].active_pane == m.windows[window].active_pane
            &&& forall|w: u64| w != window ==> (#[trigger] m1.windows.contains_key(w) <==> m.windows.contains_key(w))
            &&& m1.panes == m.panes
        }),
{
}

/// Renaming the session keeps its id and reports it; with no session known
/// the rename changes nothing and is reported as a warning.
pub proof fn lemma_session_rename_keeps_the_id(m: ManagerV, name: Seq<char>)
    ensures
        ({
            let (m1, u) = apply_spec(m, ClientEventV::Notification(EventV::SessionRenamed { name }));
            match m.session {
                Some((id, _)) => m1.session == Some((id, name)) && u == seq![UpdateV::SessionChanged { session: id, name }],
                None => m1 == m && u.len() == 1 && u[0] is Warning,
            }
        }),
{
}

/// A window that appears is known afterwards (one already known keeps its
/// state); a session change sets the session; a change of active pane is
/// recorded on a known window and makes the pane known.
pub proof fn lemma_windows_and_session_follow(m: ManagerV, window: u64, pane: u64, session: u64, name: Seq<char>)
    ensures
        ({
            let (m1, u1) = apply_spec(m, ClientEventV::Notification(EventV::WindowAdd { window }));
            &&& u1 == seq![UpdateV::WindowAdded { window }]
            &&& m1.windows.contains_key(window)
            &&& (m.windows.contains_key(window) ==> m1.windows[window] == m.windows[window])
            &&& m1.panes == m.panes && m1.session == m.session
        }),
        ({
            let (m2, u2) = apply_spec(m, ClientEventV::Notification(EventV::SessionChanged { session, name }));
            &&& u2 == seq![UpdateV::SessionChanged { session, name }]
            &&& m2.session == Some((session, name))
            &&& m2.windows == m.windows && m2.panes == m.panes
        }),
        ({
            let (m3, u3) = apply_spec(m, ClientEventV::Notification(EventV::WindowPaneChanged { window, pane }));
            &&& u3 == seq![UpdateV::ActivePaneChanged { window, pane }]
            &&& m3.panes.contains_key(pane)
            &&& (m.windows.contains_key(window) ==> m3.windows.contains_key(window) && m3.windows[window].active_pane
                == Some(pane) && m3.windows[window].name == m.windows[window].name
                && m3.windows[window].layout == m.windows[window].layout)
            &&& (!m.windows.contains_key(window) ==> m3.windows == m.windows)
        }),
{
}

/// Replies, the end of the session and `%exit` leave the model as it is and
/// are passed on as they came.
pub proof fn lemma_replies_and_endings_pass_through(m: ManagerV, tag: u64, success: bool, output: Seq<char>, reason: ShutdownV, exit: Option<Seq<char>>)
    ensures
        apply_spec(m, ClientEventV::CommandDone { tag, success, output }) == (m, seq![UpdateV::CommandDone { tag, success, output }]),
        apply_spec(m, ClientEventV::Shutdown(reason)) == (m, seq![UpdateV::Ended { reason }]),
        apply_spec(m, ClientEventV::Notification(EventV::Exit { reason: exit })) == (
            m,
            seq![UpdateV::Ended { reason: ShutdownV::Exit(exit) }],
        ),
{
}

} // verus!
