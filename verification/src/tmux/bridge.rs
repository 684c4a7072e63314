//! Bridge between the tmux control stream and the outside world. It joins
//! the client (correlation) and the manager (model) and digests the
//! `ModelUpdate`s into outputs ready for the transport: terminal bytes per
//! logical session, payloads for the `tmux-*` events and commands already
//! composed (and sanitised) to write to the channel.
//!
//! No I/O and no clock: the transport hands it bytes and monotonic
//! milliseconds and writes what this module gives back.
use vstd::prelude::*;
use crate::text::{contains, dec, hex2, push_char, push_dec, push_hex2, push_str};
use crate::tmux::client::{
    client_feed, client_wf, has_line_break, send_res_view, send_spec, timeout_spec, ClientEvent,
    ClientEventV, ClientV, ControlClient, SendError, ShutdownReason, ShutdownV,
};
use crate::tmux::layout::{cell_v, CellV, KindV, LayoutCell, LayoutKind, SplitDir};
use crate::tmux::manager::{apply_spec, ManagerV, ModelUpdate, PaneBinding, TmuxManager, UpdateV};

verus! {

// ─── Composition of tmux commands (sanitised) ───────────────────────────────
//
// In control mode raw keyboard bytes are never written to the channel:
// everything travels as one-line commands. Pane and window ids are numbers;
// the only free text (a window name) goes between single quotes with the one
// escape tmux understands for them.

/// ` 0x{b:02x}` for each byte.
pub open spec fn hex_bytes(d: Seq<u8>) -> Seq<char>
    decreases d.len(),
{
    if d.len() == 0 {
        seq![]
    } else {
        hex_bytes(d.drop_last()) + " 0x"@ + hex2(d.last())
    }
}

pub open spec fn send_keys_text(pane: u64, data: Seq<u8>) -> Seq<char> {
    "send-keys -H -t %"@ + dec(pane as nat) + hex_bytes(data)
}

/// Keyboard input as hexadecimal `send-keys`: blind to the content (partial
/// UTF-8, escape sequences, NUL…) and free of quoting problems.
pub fn cmd_send_keys(pane: u64, data: &[u8]) -> (r: String)
    ensures
        r@ == send_keys_text(pane, data@),
{
    let mut cmd = String::new();
    push_str(&mut cmd, "send-keys -H -t %");
    push_dec(&mut cmd, pane);
    let ghost head = cmd@;
    let mut i: usize = 0;
    while i < data.len()
        invariant
            i <= data@.len(),
            cmd@ == head + hex_bytes(data@.take(i as int)),
        decreases data.len() - i,
    {
        push_str(&mut cmd, " 0x");
        push_hex2(&mut cmd, data[i]);
        proof {
            let t = data@.take(i + 1);
            assert(t.drop_last() =~= data@.take(i as int));
            assert(cmd@ =~= head + hex_bytes(t));
        }
        i += 1;
    }
    assert(data@.take(data@.len() as int) =~= data@);
    assert(cmd@ =~= send_keys_text(pane, data@));
    cmd
}

pub open spec fn split_text(pane: u64, horizontal: bool) -> Seq<char> {
    "split-window "@ + (if horizontal { "-h"@ } else { "-v"@ }) + " -t %"@ + dec(pane as nat)
}

/// Splits a pane. `horizontal = true` → side by side (`split-window -h`).
pub fn cmd_split_pane(pane: u64, horizontal: bool) -> (r: String)
    ensures
        r@ == split_text(pane, horizontal),
{
    let mut cmd = String::new();
    push_str(&mut cmd, "split-window ");
    push_str(&mut cmd, if horizontal { "-h" } else { "-v" });
    push_str(&mut cmd, " -t %");
    push_dec(&mut cmd, pane);
    assert(cmd@ =~= split_text(pane, horizontal));
    cmd
}

fn text_with_number(prefix: &str, n: u64) -> (r: String)
    ensures
        r@ == prefix@ + dec(n as nat),
{
    let mut cmd = String::new();
    push_str(&mut cmd, prefix);
    push_dec(&mut cmd, n);
    assert(cmd@ =~= prefix@ + dec(n as nat));
    cmd
}

pub fn cmd_kill_pane(pane: u64) -> (r: String)
    ensures
        r@ == "kill-pane -t %"@ + dec(pane as nat),
{
    text_with_number("kill-pane -t %", pane)
}

pub fn cmd_new_window() -> (r: String)
    ensures
        r@ == "new-window"@,
{
    let mut cmd = String::new();
    push_str(&mut cmd, "new-window");
    assert(cmd@ =~= "new-window"@);
    cmd
}

pub fn cmd_kill_window(window: u64) -> (r: String)
    ensures
        r@ == "kill-window -t @"@ + dec(window as nat),
{
    text_with_number("kill-window -t @", window)
}

/// A window name as it goes between single quotes: line breaks dropped, and
/// each `'` written `'\''` (close, escaped quote, reopen).
pub open spec fn quote_name(s: Seq<char>) -> Seq<char>
    decreases s.len(),
{
    if s.len() == 0 {
        seq![]
    } else {
        let c = s.last();
        quote_name(s.drop_last()) + (if c == '\n' || c == '\r' {
            Seq::<char>::empty()
        } else if c == '\'' {
            seq!['\'', '\\', '\'', '\'']
        } else {
            seq![c]
        })
    }
}

pub open spec fn rename_text(window: u64, name: Seq<char>) -> Seq<char> {
    "rename-window -t @"@ + dec(window as nat) + " '"@ + quote_name(name) + "'"@
}

/// Renames a window. The name goes between single quotes, a quote inside it
/// is written `'\''`, and line breaks are dropped: the client would refuse
/// the command otherwise.
pub fn cmd_rename_window(window: u64, name: &str) -> (r: String)
    ensures
        r@ == rename_text(window, name@),
{
    let cs = crate::text::chars_of(name);
    let mut cmd = String::new();
    push_str(&mut cmd, "rename-window -t @");
    push_dec(&mut cmd, window);
    push_str(&mut cmd, " '");
    let ghost head = cmd@;
    let mut i: usize = 0;
    while i < cs.len()
        invariant
            i <= cs@.len(),
            cmd@ == head + quote_name(cs@.take(i as int)),
        decreases cs.len() - i,
    {
        let c = cs[i];
        if c == '\n' || c == '\r' {
        } else if c == '\'' {
            push_str(&mut cmd, "'\\''");
            proof {
                reveal_strlit("'\\''");
            }
        } else {
            push_char(&mut cmd, c);
        }
        proof {
            let t = cs@.take(i + 1);
            assert(t.drop_last() =~= cs@.take(i as int));
            assert(t.last() == c);
            assert(cmd@ =~= head + quote_name(t));
        }
        i += 1;
    }
    push_str(&mut cmd, "'");
    assert(cs@.take(cs@.len() as int) =~= cs@);
    assert(cmd@ =~= rename_text(window, name@));
    cmd
}

pub open spec fn resize_text(pane: u64, cols: u32, rows: u32) -> Seq<char> {
    "resize-pane -t %"@ + dec(pane as nat) + " -x "@ + dec(cols as nat) + " -y "@ + dec(rows as nat)
}

/// Resizes a pane to an absolute size in cells.
pub fn cmd_resize_pane(pane: u64, cols: u32, rows: u32) -> (r: String)
    ensures
        r@ == resize_text(pane, cols, rows),
{
    let mut cmd = String::new();
    push_str(&mut cmd, "resize-pane -t %");
    push_dec(&mut cmd, pane);
    push_str(&mut cmd, " -x ");
    push_dec(&mut cmd, cols as u64);
    push_str(&mut cmd, " -y ");
    push_dec(&mut cmd, rows as u64);
    assert(cmd@ =~= resize_text(pane, cols, rows));
    cmd
}

pub open spec fn client_size_text(cols: u32, rows: u32) -> Seq<char> {
    "refresh-client -C "@ + dec(cols as nat) + "x"@ + dec(rows as nat)
}

/// Size of the control client: tmux never makes a window larger than its
/// smallest client, so ours has to be declared.
pub fn cmd_set_client_size(cols: u32, rows: u32) -> (r: String)
    ensures
        r@ == client_size_text(cols, rows),
{
    let mut cmd = String::new();
    push_str(&mut cmd, "refresh-client -C ");
    push_dec(&mut cmd, cols as u64);
    push_str(&mut cmd, "x");
    push_dec(&mut cmd, rows as u64);
    assert(cmd@ =~= client_size_text(cols, rows));
    cmd
}

pub open spec fn capture_text(pane: u64, lines: u32) -> Seq<char> {
    "capture-pane -p -e -J -t %"@ + dec(pane as nat) + " -S -"@ + dec(lines as nat)
}

/// Scrollback of a pane: `-p` to the command's output, `-e` keeps colours,
/// `-J` joins wrapped lines, `-S -N` starts N lines back.
pub fn cmd_capture_pane(pane: u64, lines: u32) -> (r: String)
    ensures
        r@ == capture_text(pane, lines),
{
    let mut cmd = String::new();
    push_str(&mut cmd, "capture-pane -p -e -J -t %");
    push_dec(&mut cmd, pane);
    push_str(&mut cmd, " -S -");
    push_dec(&mut cmd, lines as u64);
    assert(cmd@ =~= capture_text(pane, lines));
    cmd
}

// ─── One line per command ────────────────────────────────────────────────────

pub open spec fn no_breaks(s: Seq<char>) -> bool {
    forall|i: int| 0 <= i < s.len() ==> s[i] != '\n' && s[i] != '\r'
}

proof fn lemma_no_breaks_concat(a: Seq<char>, b: Seq<char>)
    requires
        no_breaks(a),
        no_breaks(b),
    ensures
        no_breaks(a + b),
{
    assert forall|i: int| 0 <= i < (a + b).len() implies (a + b)[i] != '\n' && (a + b)[i] != '\r' by {
        if i < a.len() {
            assert((a + b)[i] == a[i]);
        } else {
            assert((a + b)[i] == b[i - a.len()]);
        }
    }
}

proof fn lemma_no_breaks_line(s: Seq<char>)
    requires
        no_breaks(s),
    ensures
        !has_line_break(s),
{
    if contains(s, seq!['\n']) {
        let i = choose|i: int| crate::text::occurs_at(s, seq!['\n'], i);
        assert(s.subrange(i, i + 1)[0] == s[i]);
    }
    if contains(s, seq!['\r']) {
        let i = choose|i: int| crate::text::occurs_at(s, seq!['\r'], i);
        assert(s.subrange(i, i + 1)[0] == s[i]);
    }
}

proof fn lemma_dec_no_breaks(n: nat)
    ensures
        no_breaks(dec(n)),
    decreases n,
{
    if n >= 10 {
        lemma_dec_no_breaks(n / 10);
        lemma_no_breaks_concat(dec(n / 10), seq![crate::text::hex_char(n % 10)]);
        assert(dec(n / 10).push(crate::text::hex_char(n % 10)) =~= dec(n / 10) + seq![crate::text::hex_char(n % 10)]);
    }
}

proof fn lemma_quote_name_no_breaks(s: Seq<char>)
    ensures
        no_breaks(quote_name(s)),
    decreases s.len(),
{
    if s.len() > 0 {
        lemma_quote_name_no_breaks(s.drop_last());
        let c = s.last();
        let piece = if c == '\n' || c == '\r' {
            Seq::<char>::empty()
        } else if c == '\'' {
            seq!['\'', '\\', '\'', '\'']
        } else {
            seq![c]
        };
        lemma_no_breaks_concat(quote_name(s.drop_last()), piece);
    }
}

proof fn lemma_hex_bytes_no_breaks(d: Seq<u8>)
    ensures
        no_breaks(hex_bytes(d)),
    decreases d.len(),
{
    reveal_strlit(" 0x");
    if d.len() > 0 {
        lemma_hex_bytes_no_breaks(d.drop_last());
        let b = d.last();
        lemma_no_breaks_concat(hex_bytes(d.drop_last()), " 0x"@);
        assert(no_breaks(hex2(b))) by {
            assert(hex2(b) =~= seq![crate::text::hex_char((b / 16) as nat), crate::text::hex_char((b % 16) as nat)]);
        }
        lemma_no_breaks_concat(hex_bytes(d.drop_last()) + " 0x"@, hex2(b));
    }
}

/// Every composed command is a single line, so the client never refuses it
/// as a ghost second command — whatever the window name or the key bytes.
pub proof fn lemma_commands_are_one_line(
    pane: u64,
    window: u64,
    data: Seq<u8>,
    name: Seq<char>,
    horizontal: bool,
    cols: u32,
    rows: u32,
    lines: u32,
)
    ensures
        !has_line_break(send_keys_text(pane, data)),
        !has_line_break(rename_text(window, name)),
        !has_line_break(split_text(pane, horizontal)),
        !has_line_break(resize_text(pane, cols, rows)),
        !has_line_break(client_size_text(cols, rows)),
        !has_line_break(capture_text(pane, lines)),
{
    reveal_strlit("send-keys -H -t %");
    reveal_strlit("rename-window -t @");
    reveal_strlit(" '");
    reveal_strlit("'");
    reveal_strlit("split-window ");
    reveal_strlit("-h");
    reveal_strlit("-v");
    reveal_strlit(" -t %");
    reveal_strlit("resize-pane -t %");
    reveal_strlit(" -x ");
    reveal_strlit(" -y ");
    reveal_strlit("refresh-client -C ");
    reveal_strlit("x");
    reveal_strlit("capture-pane -p -e -J -t %");
    reveal_strlit(" -S -");
    lemma_dec_no_breaks(pane as nat);
    lemma_dec_no_breaks(window as nat);
    lemma_dec_no_breaks(cols as nat);
    lemma_dec_no_breaks(rows as nat);
    lemma_dec_no_breaks(lines as nat);
    lemma_hex_bytes_no_breaks(data);
    lemma_quote_name_no_breaks(name);

    lemma_no_breaks_concat("send-keys -H -t %"@, dec(pane as nat));
    lemma_no_breaks_concat("send-keys -H -t %"@ + dec(pane as nat), hex_bytes(data));
    lemma_no_breaks_line(send_keys_text(pane, data));

    lemma_no_breaks_concat("rename-window -t @"@, dec(window as nat));
    lemma_no_breaks_concat("rename-window -t @"@ + dec(window as nat), " '"@);
    lemma_no_breaks_concat("rename-window -t @"@ + dec(window as nat) + " '"@, quote_name(name));
    lemma_no_breaks_concat("rename-window -t @"@ + dec(window as nat) + " '"@ + quote_name(name), "'"@);
    lemma_no_breaks_line(rename_text(window, name));

    let flag = if horizontal { "-h"@ } else { "-v"@ };
    lemma_no_breaks_concat("split-window "@, flag);
    lemma_no_breaks_concat("split-window "@ + flag, " -t %"@);
    lemma_no_breaks_concat("split-window "@ + flag + " -t %"@, dec(pane as nat));
    lemma_no_breaks_line(split_text(pane, horizontal));

    lemma_no_breaks_concat("resize-pane -t %"@, dec(pane as nat));
    lemma_no_breaks_concat("resize-pane -t %"@ + dec(pane as nat), " -x "@);
    lemma_no_breaks_concat("resize-pane -t %"@ + dec(pane as nat) + " -x "@, dec(cols as nat));
    lemma_no_breaks_concat("resize-pane -t %"@ + dec(pane as nat) + " -x "@ + dec(cols as nat), " -y "@);
    lemma_no_breaks_concat(
        "resize-pane -t %"@ + dec(pane as nat) + " -x "@ + dec(cols as nat) + " -y "@,
        dec(rows as nat),
    );
    lemma_no_breaks_line(resize_text(pane, cols, rows));

    lemma_no_breaks_concat("refresh-client -C "@, dec(cols as nat));
    lemma_no_breaks_concat("refresh-client -C "@ + dec(cols as nat), "x"@);
    lemma_no_breaks_concat("refresh-client -C "@ + dec(cols as nat) + "x"@, dec(rows as nat));
    lemma_no_breaks_line(client_size_text(cols, rows));

    lemma_no_breaks_concat("capture-pane -p -e -J -t %"@, dec(pane as nat));
    lemma_no_breaks_concat("capture-pane -p -e -J -t %"@ + dec(pane as nat), " -S -"@);
    lemma_no_breaks_concat("capture-pane -p -e -J -t %"@ + dec(pane as nat) + " -S -"@, dec(lines as nat));
    lemma_no_breaks_line(capture_text(pane, lines));
}

// ─── Event payloads ──────────────────────────────────────────────────────────

/// Pane ↔ logical session link, as it travels in the events.
#[derive(Debug, Clone, PartialEq, Eq)]
pub struct PaneRef {
    pub pane: u64,
    pub logical_id: String,
}

impl View for PaneRef {
    type V = (u64, Seq<char>);

    open spec fn view(&self) -> (u64, Seq<char>) {
        (self.pane, self.logical_id@)
    }
}

impl From<PaneBinding> for PaneRef {
    fn from(b: PaneBinding) -> (r: Self) {
        PaneRef { pane: b.pane, logical_id: b.logical_id }
    }
}

impl vstd::std_specs::convert::FromSpecImpl<PaneBinding> for PaneRef {
    open spec fn obeys_from_spec() -> bool {
        true
    }

    open spec fn from_spec(b: PaneBinding) -> PaneRef {
        PaneRef { pane: b.pane, logical_id: b.logical_id }
    }
}

/// Layout node for the frontend. `dir` follows the flex-CSS convention:
/// `"row"` = side by side (tmux `{}`), `"column"` = stacked (`[]`).
/// Geometry in terminal cells.
#[derive(Debug, PartialEq, Eq)]
pub struct LayoutNode {
    pub width: u32,
    pub height: u32,
    pub x: u32,
    pub y: u32,
    pub pane: Option<u64>,
    pub dir: Option<&'static str>,
    pub children: Option<Vec<LayoutNode>>,
}

pub struct NodeV {
    pub width: u32,
    pub height: u32,
    pub x: u32,
    pub y: u32,
    pub pane: Option<u64>,
    pub dir: Option<Seq<char>>,
    pub children: Option<Seq<NodeV>>,
}

pub open spec fn node_v(n: LayoutNode) -> NodeV
    decreases n, 1nat,
{
    NodeV {
        width: n.width,
        height: n.height,
        x: n.x,
        y: n.y,
        pane: n.pane,
        dir: match n.dir {
            Some(d) => Some(d@),
            None => None,
        },
        children: match n.children {
            Some(cs) => Some(nodes_v(cs@)),
            None => None,
        },
    }
}

pub open spec fn nodes_v(ns: Seq<LayoutNode>) -> Seq<NodeV>
    decreases ns, ns.len(),
{
    if ns.len() == 0 {
        seq![]
    } else {
        nodes_v(ns.drop_last()).push(node_v(ns.last()))
    }
}

impl View for LayoutNode {
    type V = NodeV;

    open spec fn view(&self) -> NodeV {
        node_v(*self)
    }
}

pub open spec fn dir_name(d: SplitDir) -> Seq<char> {
    match d {
        SplitDir::LeftRight => "row"@,
        SplitDir::TopBottom => "column"@,
    }
}

/// The node a layout cell becomes.
pub open spec fn node_of(c: CellV) -> NodeV
    decreases c, 1nat,
{
    match c.kind {
        KindV::Leaf { pane } => NodeV {
            width: c.width,
            height: c.height,
            x: c.x,
            y: c.y,
            pane: Some(pane),
            dir: None,
            children: None,
        },
        KindV::Split { dir, children } => NodeV {
            width: c.width,
            height: c.height,
            x: c.x,
            y: c.y,
            pane: None,
            dir: Some(dir_name(dir)),
            children: Some(nodes_of(children)),
        },
    }
}

pub open spec fn nodes_of(cs: Seq<CellV>) -> Seq<NodeV>
    decreases cs, cs.len(),
{
    if cs.len() == 0 {
        seq![]
    } else {
        nodes_of(cs.drop_last()).push(node_of(cs.last()))
    }
}

proof fn lemma_nodes_v_push(ns: Seq<LayoutNode>, n: LayoutNode)
    ensures
        nodes_v(ns.push(n)) == nodes_v(ns).push(node_v(n)),
{
    assert(ns.push(n).drop_last() =~= ns);
}

proof fn lemma_nodes_of_push(cs: Seq<CellV>, c: CellV)
    ensures
        nodes_of(cs.push(c)) == nodes_of(cs).push(node_of(c)),
{
    assert(cs.push(c).drop_last() =~= cs);
}

impl LayoutNode {
    /// The node of a layout cell (its whole subtree).
    pub fn from_cell(cell: &LayoutCell) -> (r: Self)
        ensures
            r@ == node_of(cell@),
        decreases *cell,
    {
        match &cell.kind {
            LayoutKind::Leaf { pane } => LayoutNode {
                width: cell.width,
                height: cell.height,
                x: cell.x,
                y: cell.y,
                pane: Some(*pane),
                dir: None,
                children: None,
            },
            LayoutKind::Split { dir, children } => {
                let mut nodes: Vec<LayoutNode> = Vec::new();
                let mut i: usize = 0;
                while i < children.len()
                    invariant
                        i <= children@.len(),
                        cell.kind == (LayoutKind::Split { dir: *dir, children: *children }),
                        nodes_v(nodes@) == nodes_of(crate::tmux::layout::cells_v(children@.take(i as int))),
                    decreases children.len() - i,
                {
                    proof {
                        assert(decreases_to!(*cell => cell.kind));
                        assert(decreases_to!(cell.kind => cell.kind->children));
                        assert(decreases_to!(*children => children@));
                        assert(decreases_to!(children@ => children@[i as int]));
                    }
                    let n = LayoutNode::from_cell(&children[i]);
                    proof {
                        let t = children@.take(i as int);
                        assert(children@.take(i + 1) =~= t.push(children@[i as int]));
                        crate::tmux::layout::lemma_cells_v_push(t, children@[i as int]);
                        lemma_nodes_of_push(crate::tmux::layout::cells_v(t), cell_v(children@[i as int]));
                        lemma_nodes_v_push(nodes@, n);
                    }
                    nodes.push(n);
                    i += 1;
                }
                assert(children@.take(i as int) =~= children@);
                let d: &'static str = match dir {
                    SplitDir::LeftRight => "row",
                    SplitDir::TopBottom => "column",
                };
                LayoutNode {
                    width: cell.width,
                    height: cell.height,
                    x: cell.x,
                    y: cell.y,
                    pane: None,
                    dir: Some(d),
                    children: Some(nodes),
                }
            },
        }
    }
}

/// Payload of `tmux-layout`.
#[derive(Debug, PartialEq, Eq)]
pub struct TmuxLayoutPayload {
    pub window: u64,
    pub layout: LayoutNode,
    pub added: Vec<PaneRef>,
    pub removed: Vec<PaneRef>,
}

/// Payload of `tmux-window-added` (upsert: creation or rename) and of
/// `tmux-window-closed`.
#[derive(Debug, Clone, PartialEq, Eq)]
pub struct TmuxWindowPayload {
    pub window: u64,
    pub name: Option<String>,
}

/// Payload of `tmux-pane-closed`: the one signal that a pane's logical
/// session ends.
#[derive(Debug, Clone, PartialEq, Eq)]
pub struct TmuxPaneClosedPayload {
    pub pane: PaneRef,
}

/// Payload of `tmux-exit`.
#[derive(Debug, Clone, PartialEq, Eq)]
pub struct TmuxExitPayload {
    pub reason: Option<String>,
}

/// What the transport has to do after each digestion. Nothing is dropped
/// silently: what is not understood comes out as `Warning`.
#[derive(Debug, PartialEq, Eq)]
pub enum BridgeOut {
    /// Terminal bytes for a pane's logical session.
    PaneOutput { pane: PaneRef, bytes: Vec<u8> },
    /// New layout of a window.
    Layout(TmuxLayoutPayload),
    /// Window created or renamed (upsert).
    WindowUpsert(TmuxWindowPayload),
    /// Window closed.
    WindowClosed(TmuxWindowPayload),
    /// A pane ended; its logical session closes.
    PaneClosed(TmuxPaneClosedPayload),
    /// Correlated response to a command sent with `command()`.
    CommandDone { tag: u64, success: bool, output: String },
    /// The control session ended. Write nothing more.
    Ended(TmuxExitPayload),
    /// Something unreadable or unexpected, for the connection log.
    Warning { message: String },
}

pub enum OutV {
    PaneOutput { pane: (u64, Seq<char>), bytes: Seq<u8> },
    Layout { window: u64, layout: NodeV, added: Seq<(u64, Seq<char>)>, removed: Seq<(u64, Seq<char>)> },
    WindowUpsert { window: u64, name: Option<Seq<char>> },
    WindowClosed { window: u64, name: Option<Seq<char>> },
    PaneClosed { pane: (u64, Seq<char>) },
    CommandDone { tag: u64, success: bool, output: Seq<char> },
    Ended { reason: Option<Seq<char>> },
    Warning { message: Seq<char> },
}

pub open spec fn refs_view(v: Seq<PaneRef>) -> Seq<(u64, Seq<char>)> {
    v.map_values(|r: PaneRef| r@)
}

impl View for BridgeOut {
    type V = OutV;

    open spec fn view(&self) -> OutV {
        match self {
            BridgeOut::PaneOutput { pane, bytes } => OutV::PaneOutput { pane: pane@, bytes: bytes@ },
            BridgeOut::Layout(p) => OutV::Layout {
                window: p.window,
                layout: p.layout@,
                added: refs_view(p.added@),
                removed: refs_view(p.removed@),
            },
            BridgeOut::WindowUpsert(p) => OutV::WindowUpsert { window: p.window, name: crate::tmux::protocol::opt_view(p.name) },
            BridgeOut::WindowClosed(p) => OutV::WindowClosed { window: p.window, name: crate::tmux::protocol::opt_view(p.name) },
            BridgeOut::PaneClosed(p) => OutV::PaneClosed { pane: p.pane@ },
            BridgeOut::CommandDone { tag, success, output } => OutV::CommandDone {
                tag: *tag,
                success: *success,
                output: output@,
            },
            BridgeOut::Ended(p) => OutV::Ended { reason: crate::tmux::protocol::opt_view(p.reason) },
            BridgeOut::Warning { message } => OutV::Warning { message: message@ },
        }
    }
}

pub open spec fn outs_view(v: Seq<BridgeOut>) -> Seq<OutV> {
    v.map_values(|o: BridgeOut| o@)
}

// ─── Digestion ───────────────────────────────────────────────────────────────

pub open spec fn exit_reason_text(r: ShutdownV) -> Option<Seq<char>> {
    match r {
        ShutdownV::Exit(reason) => reason,
        ShutdownV::Desync { line } => Some("desincronización: "@ + line),
        ShutdownV::CommandTimeout { tag } => Some("el comando #"@ + dec(tag as nat) + " agotó su plazo"@),
    }
}

pub open spec fn pane_closed_all(bs: Seq<(u64, Seq<char>)>) -> Seq<OutV> {
    bs.map_values(|b: (u64, Seq<char>)| OutV::PaneClosed { pane: b })
}

/// `ModelUpdate` → outputs. Focus, subscription and per-pane pause updates
/// are left out on purpose (the UI keeps its own focus).
pub open spec fn digest_spec(u: UpdateV) -> Seq<OutV> {
    match u {
        UpdateV::Output { pane, bytes } => seq![OutV::PaneOutput { pane, bytes }],
        UpdateV::LayoutChanged { window, layout, added, removed } => pane_closed_all(removed) + seq![
            OutV::Layout { window, layout: node_of(layout), added, removed },
        ],
        UpdateV::WindowAdded { window } => seq![OutV::WindowUpsert { window, name: None }],
        UpdateV::WindowRenamed { window, name } => seq![OutV::WindowUpsert { window, name: Some(name) }],
        UpdateV::WindowClosed { window, removed_panes } => pane_closed_all(removed_panes) + seq![
            OutV::WindowClosed { window, name: None },
        ],
        UpdateV::CommandDone { tag, success, output } => seq![OutV::CommandDone { tag, success, output }],
        UpdateV::Ended { reason } => seq![OutV::Ended { reason: exit_reason_text(reason) }],
        UpdateV::Warning { message } => seq![OutV::Warning { message }],
        _ => seq![],
    }
}

pub open spec fn digest_all(us: Seq<UpdateV>) -> Seq<OutV>
    decreases us.len(),
{
    if us.len() == 0 {
        seq![]
    } else {
        digest_all(us.drop_last()) + digest_spec(us.last())
    }
}

fn exit_reason(reason: ShutdownReason) -> (r: Option<String>)
    ensures
        crate::tmux::protocol::opt_view(r) == exit_reason_text(reason@),
{
    match reason {
        ShutdownReason::Exit(reason) => reason,
        ShutdownReason::Desync { line } => {
            let mut s = String::new();
            push_str(&mut s, "desincronización: ");
            push_str(&mut s, line.as_str());
            assert(s@ =~= "desincronización: "@ + line@);
            Some(s)
        },
        ShutdownReason::CommandTimeout { tag } => {
            let mut s = String::new();
            push_str(&mut s, "el comando #");
            push_dec(&mut s, tag);
            push_str(&mut s, " agotó su plazo");
            assert(s@ =~= "el comando #"@ + dec(tag as nat) + " agotó su plazo"@);
            Some(s)
        },
    }
}

/// Appends a `PaneClosed` for each binding, in order, and gives the
/// bindings back as `PaneRef`s.
fn push_pane_closed(bs: Vec<PaneBinding>, out: &mut Vec<BridgeOut>) -> (r: Vec<PaneRef>)
    ensures
        outs_view(final(out)@) == outs_view(old(out)@) + pane_closed_all(crate::tmux::manager::bindings_view(bs@)),
        refs_view(r@) == crate::tmux::manager::bindings_view(bs@),
{
    let ghost start = outs_view(out@);
    let ghost bv = crate::tmux::manager::bindings_view(bs@);
    let mut refs: Vec<PaneRef> = Vec::new();
    let ghost mut k: int = 0;
    for b in it: bs.into_iter()
        invariant
            it.seq() == bs@,
            bv == crate::tmux::manager::bindings_view(bs@),
            k == it.index(),
            outs_view(out@) == start + pane_closed_all(bv.take(k)),
            refs_view(refs@) == bv.take(k),
    {
        let ghost ob = outs_view(out@);
        let ghost orf = refs_view(refs@);
        let r1 = PaneRef { pane: b.pane, logical_id: b.logical_id.clone() };
        let r2 = PaneRef { pane: b.pane, logical_id: b.logical_id };
        out.push(BridgeOut::PaneClosed(TmuxPaneClosedPayload { pane: r1 }));
        refs.push(r2);
        proof {
            assert(bv[k] == (b.pane, b.logical_id@));
            assert(bv.take(k + 1) =~= bv.take(k).push(bv[k]));
            assert(pane_closed_all(bv.take(k + 1)) =~= pane_closed_all(bv.take(k)).push(OutV::PaneClosed { pane: bv[k] }));
            assert(outs_view(out@) =~= ob.push(OutV::PaneClosed { pane: bv[k] }));
            assert(refs_view(refs@) =~= orf.push(bv[k]));
        }
        proof {
            k = k + 1;
        }
    }
    assert(bv.take(k) =~= bv);
    refs
}

fn digest(update: ModelUpdate, out: &mut Vec<BridgeOut>)
    ensures
        outs_view(final(out)@) == outs_view(old(out)@) + digest_spec(update@),
{
    let ghost start = outs_view(out@);
    let ghost uv = update@;
    match update {
        ModelUpdate::Output { pane, bytes } => {
            out.push(BridgeOut::PaneOutput { pane: PaneRef::from(pane), bytes });
        },
        ModelUpdate::LayoutChanged { window, layout, added, removed } => {
            let removed_refs = push_pane_closed(removed, out);
            let ghost mid = outs_view(out@);
            let node = LayoutNode::from_cell(&layout);
            let added_refs = refs_of(added);
            out.push(BridgeOut::Layout(TmuxLayoutPayload { window, layout: node, added: added_refs, removed: removed_refs }));
            assert(outs_view(out@) =~= mid.push(out@.last()@));
        },
        ModelUpdate::WindowAdded { window } => {
            out.push(BridgeOut::WindowUpsert(TmuxWindowPayload { window, name: None }));
        },
        ModelUpdate::WindowRenamed { window, name } => {
            out.push(BridgeOut::WindowUpsert(TmuxWindowPayload { window, name: Some(name) }));
        },
        ModelUpdate::WindowClosed { window, removed_panes } => {
            push_pane_closed(removed_panes, out);
            let ghost mid = outs_view(out@);
            out.push(BridgeOut::WindowClosed(TmuxWindowPayload { window, name: None }));
            assert(outs_view(out@) =~= mid.push(out@.last()@));
        },
        ModelUpdate::CommandDone { tag, success, output } => {
            out.push(BridgeOut::CommandDone { tag, success, output });
        },
        ModelUpdate::Ended { reason } => {
            let r = exit_reason(reason);
            out.push(BridgeOut::Ended(TmuxExitPayload { reason: r }));
        },
        ModelUpdate::Warning { message } => {
            out.push(BridgeOut::Warning { message });
        },
        _ => {},
    }
    assert(outs_view(out@) =~= start + digest_spec(uv));
}

fn refs_of(bs: Vec<PaneBinding>) -> (r: Vec<PaneRef>)
    ensures
        refs_view(r@) == crate::tmux::manager::bindings_view(bs@),
{
    let mut refs: Vec<PaneRef> = Vec::new();
    let ghost bv = crate::tmux::manager::bindings_view(bs@);
    let ghost mut k: int = 0;
    for b in it: bs.into_iter()
        invariant
            it.seq() == bs@,
            bv == crate::tmux::manager::bindings_view(bs@),
            k == it.index(),
            refs_view(refs@) == bv.take(k),
    {
        let ghost orf = refs_view(refs@);
        refs.push(PaneRef::from(b));
        proof {
            assert(bv.take(k + 1) =~= bv.take(k).push(bv[k]));
            assert(refs_view(refs@) =~= orf.push(bv[k]));
        }
        proof {
            k = k + 1;
        }
    }
    assert(bv.take(k) =~= bv);
    refs
}

// ─── The bridge ──────────────────────────────────────────────────────────────

/// Applying client events one after the other to the model.
pub open spec fn apply_all(m: ManagerV, evs: Seq<ClientEventV>) -> (ManagerV, Seq<UpdateV>)
    decreases evs.len(),
{
    if evs.len() == 0 {
        (m, seq![])
    } else {
        let (m1, u0) = apply_all(m, evs.drop_last());
        let (m2, u1) = apply_spec(m1, evs.last());
        (m2, u0 + u1)
    }
}

/// `feed` on the model: the client correlates, the manager digests each
/// event, and each update becomes outputs.
pub open spec fn bridge_feed(b: BridgeV, bytes: Seq<u8>) -> (BridgeV, Seq<OutV>) {
    let (c2, evs) = client_feed(b.client, bytes);
    let (m2, us) = apply_all(b.manager, evs);
    (BridgeV { client: c2, manager: m2 }, digest_all(us))
}

/// `check_timeouts` on the model.
pub open spec fn bridge_timeouts(b: BridgeV, now_ms: u64) -> (BridgeV, Seq<OutV>) {
    let (c2, ev) = timeout_spec(b.client, now_ms);
    match ev {
        None => (BridgeV { client: c2, manager: b.manager }, seq![]),
        Some(e) => {
            let (m2, us) = apply_spec(b.manager, e);
            (BridgeV { client: c2, manager: m2 }, digest_all(us))
        },
    }
}

/// Control-mode state of ONE connection: correlating client plus model.
#[derive(Debug)]
pub struct ControlBridge {
    client: ControlClient,
    manager: TmuxManager,
}

pub struct BridgeV {
    pub client: ClientV,
    pub manager: ManagerV,
}

impl View for ControlBridge {
    type V = BridgeV;

    closed spec fn view(&self) -> BridgeV {
        BridgeV { client: self.client@, manager: self.manager@ }
    }
}

pub open spec fn client_events_view_all(v: Seq<ClientEvent>) -> Seq<ClientEventV> {
    crate::tmux::client::client_events_view(v)
}

impl ControlBridge {
    pub closed spec fn wf(&self) -> bool {
        self.manager.wf() && client_wf(self.client@)
    }

    /// `prefix` = the SSH connection's session id: logical pane ids come out
    /// as `{prefix}-p{pane}`.
    pub fn new(prefix: &str) -> (r: Self)
        ensures
            r.wf(),
            r@.client == (ClientV {
                parser: crate::tmux::protocol::ParserV { buf: seq![], block: None },
                pending: seq![],
                next_tag: 0,
                timeout_ms: crate::tmux::client::DEFAULT_COMMAND_TIMEOUT_MS,
                closed: false,
            }),
            r@.manager == (ManagerV { prefix: prefix@, session: None, windows: Map::empty(), panes: Map::empty() }),
    {
        ControlBridge { client: ControlClient::new(), manager: TmuxManager::new(prefix) }
    }

    /// After `%exit`, a desync or a timeout nothing can (or must) be written.
    pub fn is_closed(&self) -> (r: bool)
        ensures
            r == self@.client.closed,
    {
        self.client.is_closed()
    }

    /// Deterministic logical id of a pane.
    pub fn logical_id_for(&self, pane: u64) -> (r: String)
        ensures
            r@ == crate::tmux::manager::lid(self@.manager.prefix, pane),
    {
        self.manager.logical_id_for(pane)
    }

    fn apply_digest(&mut self, event: ClientEvent, out: &mut Vec<BridgeOut>)
        requires
            old(self).wf(),
        ensures
            final(self).wf(),
            final(self)@.client == old(self)@.client,
            final(self)@.manager == apply_spec(old(self)@.manager, event@).0,
            outs_view(final(out)@) == outs_view(old(out)@) + digest_all(apply_spec(old(self)@.manager, event@).1),
    {
        let updates = self.manager.apply(event);
        let ghost uv = crate::tmux::manager::updates_view(updates@);
        let ghost start = outs_view(out@);
        let ghost mut k: int = 0;
        assert(uv.take(0) =~= Seq::<UpdateV>::empty());
        for u in it: updates.into_iter()
            invariant
                it.seq() == updates@,
                uv == crate::tmux::manager::updates_view(updates@),
                k == it.index(),
                outs_view(out@) == start + digest_all(uv.take(k)),
        {
            let ghost before = outs_view(out@);
            digest(u, out);
            proof {
                assert(uv[k] == u@);
                assert(uv.take(k + 1).drop_last() =~= uv.take(k));
                assert(outs_view(out@) =~= start + digest_all(uv.take(k + 1)));
                k = k + 1;
            }
        }
        assert(uv.take(k) =~= uv);
    }

    /// Bytes received from the channel → digested outputs.
    pub fn feed(&mut self, bytes: &[u8]) -> (r: Vec<BridgeOut>)
        requires
            old(self).wf(),
        ensures
            final(self).wf(),
            bridge_feed(old(self)@, bytes@) == (final(self)@, outs_view(r@)),
    {
        let events = self.client.feed(bytes);
        let ghost ev = crate::tmux::client::client_events_view(events@);
        let ghost c1 = self@.client;
        let ghost m0 = self@.manager;
        let ghost mut k: int = 0;
        let mut out: Vec<BridgeOut> = Vec::new();
        assert(ev.take(0) =~= Seq::<ClientEventV>::empty());
        assert(outs_view(out@) =~= Seq::<OutV>::empty());
        for event in it: events.into_iter()
            invariant
                it.seq() == events@,
                ev == crate::tmux::client::client_events_view(events@),
                k == it.index(),
                self.wf(),
                self@.client == c1,
                self@.manager == apply_all(m0, ev.take(k)).0,
                outs_view(out@) == digest_all(apply_all(m0, ev.take(k)).1),
        {
            let ghost u0 = apply_all(m0, ev.take(k)).1;
            let ghost m1 = self@.manager;
            self.apply_digest(event, &mut out);
            proof {
                assert(ev[k] == event@);
                assert(ev.take(k + 1).drop_last() =~= ev.take(k));
                assert(ev.take(k + 1).last() == event@);
                lemma_digest_all_concat(u0, apply_spec(m1, event@).1);
                k = k + 1;
            }
        }
        assert(ev.take(k) =~= ev);
        out
    }

    /// Composes the sending of a command: gives `(tag, bytes to write)`. The
    /// response arrives as `BridgeOut::CommandDone` with that tag.
    pub fn command(&mut self, command: &str, now_ms: u64) -> (r: Result<(u64, Vec<u8>), SendError>)
        requires
            old(self).wf(),
            old(self)@.client.closed || has_line_break(command@) || old(self)@.client.next_tag < u64::MAX,
        ensures
            final(self).wf(),
            send_spec(old(self)@.client, command@, now_ms) == (final(self)@.client, send_res_view(r)),
            final(self)@.manager == old(self)@.manager,
    {
        self.client.send_command(command, now_ms)
    }

    /// Expiry of pending commands (to call from the worker's timer).
    pub fn check_timeouts(&mut self, now_ms: u64) -> (r: Vec<BridgeOut>)
        requires
            old(self).wf(),
        ensures
            final(self).wf(),
            bridge_timeouts(old(self)@, now_ms) == (final(self)@, outs_view(r@)),
    {
        let mut out: Vec<BridgeOut> = Vec::new();
        assert(outs_view(out@) =~= Seq::<OutV>::empty());
        match self.client.check_timeouts(now_ms) {
            Some(event) => {
                self.apply_digest(event, &mut out);
                assert(outs_view(out@) =~= Seq::<OutV>::empty() + digest_all(apply_spec(old(self)@.manager, event@).1));
            },
            None => {},
        }
        out
    }
}

proof fn lemma_digest_all_concat(a: Seq<UpdateV>, b: Seq<UpdateV>)
    ensures
        digest_all(a + b) == digest_all(a) + digest_all(b),
    decreases b.len(),
{
    if b.len() == 0 {
        assert(a + b =~= a);
        assert(digest_all(a) + digest_all(b) =~= digest_all(a));
    } else {
        lemma_digest_all_concat(a, b.drop_last());
        assert((a + b).drop_last() =~= a + b.drop_last());
        assert((a + b).last() == b.last());
        assert(digest_all(a) + digest_all(b) =~= digest_all(a) + digest_all(b.drop_last()) + digest_spec(b.last()));
    }
}

} // verus!
