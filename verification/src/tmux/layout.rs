//! Parser of tmux *layout strings*.
//!
//! The format is `<checksum>,<cell>`: four hex digits (tmux's
//! `layout_checksum`) and a tree of `WxH,X,Y` cells in terminal cells, where
//! each cell is a pane (`,<id>`), a side-by-side split (`{…}`) or a
//! top-bottom split (`[…]`). This is what `%layout-change` carries.
//!
//! The tree is parsed over the UTF-8 bytes of the body, so every position in
//! an error message is a byte offset into the body.
use vstd::prelude::*;
use vstd::utf8::encode_utf8;
use crate::text::{
    chars_of, debug_string, debug_text, dec, hex4, parse_uint, parse_uint_chars, push_char, push_dec,
    push_hex4, push_str, split_once, split_once_chars, string_of,
};

verus! {

/// A cell of the layout: geometry in terminal cells plus its content.
#[derive(Debug, PartialEq, Eq)]
pub struct LayoutCell {
    pub width: u32,
    pub height: u32,
    pub x: u32,
    pub y: u32,
    pub kind: LayoutKind,
}

#[derive(Debug, PartialEq, Eq)]
pub enum LayoutKind {
    /// A concrete pane (`%<pane>` in the rest of the protocol).
    Leaf { pane: u64 },
    Split { dir: SplitDir, children: Vec<LayoutCell> },
}

/// `{}` = panes side by side; `[]` = one above the other.
#[derive(Debug, Clone, Copy, PartialEq, Eq, Structural)]
pub enum SplitDir {
    LeftRight,
    TopBottom,
}

/// Mathematical model of a [`LayoutCell`].
pub struct CellV {
    pub width: u32,
    pub height: u32,
    pub x: u32,
    pub y: u32,
    pub kind: KindV,
}

pub enum KindV {
    Leaf { pane: u64 },
    Split { dir: SplitDir, children: Seq<CellV> },
}

pub open spec fn cell_v(c: LayoutCell) -> CellV
    decreases c, 1nat,
{
    CellV { width: c.width, height: c.height, x: c.x, y: c.y, kind: kind_v(c.kind) }
}

pub open spec fn kind_v(k: LayoutKind) -> KindV
    decreases k, 0nat,
{
    match k {
        LayoutKind::Leaf { pane } => KindV::Leaf { pane },
        LayoutKind::Split { dir, children } => KindV::Split { dir, children: cells_v(children@) },
    }
}

pub open spec fn cells_v(cs: Seq<LayoutCell>) -> Seq<CellV>
    decreases cs, cs.len(),
{
    if cs.len() == 0 {
        seq![]
    } else {
        cells_v(cs.drop_last()).push(cell_v(cs.last()))
    }
}

impl View for LayoutCell {
    type V = CellV;

    open spec fn view(&self) -> CellV {
        cell_v(*self)
    }
}

/// Pane ids of a cell, left to right and top to bottom.
pub open spec fn panes_of(c: CellV) -> Seq<u64>
    decreases c, 0nat,
{
    match c.kind {
        KindV::Leaf { pane } => seq![pane],
        KindV::Split { children, .. } => panes_of_all(children),
    }
}

pub open spec fn panes_of_all(cs: Seq<CellV>) -> Seq<u64>
    decreases cs, cs.len(),
{
    if cs.len() == 0 {
        seq![]
    } else {
        panes_of_all(cs.drop_last()) + panes_of(cs.last())
    }
}

// ─── Checksum ────────────────────────────────────────────────────────────────

/// One step of tmux's checksum: rotate right by one bit, then add the byte.
pub open spec fn checksum_step(c: u16, b: u8) -> u16 {
    ((c / 2 + (c % 2) * 32768 + b) % 65536) as u16
}

/// tmux's `layout_checksum` over a byte string.
pub open spec fn checksum_of(b: Seq<u8>) -> u16
    decreases b.len(),
{
    if b.len() == 0 {
        0
    } else {
        checksum_step(checksum_of(b.drop_last()), b.last())
    }
}

// ─── Grammar ─────────────────────────────────────────────────────────────────

pub open spec fn peek(b: Seq<u8>, p: nat) -> Option<u8> {
    if p < b.len() {
        Some(b[p as int])
    } else {
        None
    }
}

pub open spec fn is_digit_byte(c: u8) -> bool {
    48 <= c <= 57
}

/// Number of ASCII digits starting at `pos`.
pub open spec fn digit_run(b: Seq<u8>, pos: int) -> nat
    decreases b.len() - pos,
{
    if 0 <= pos < b.len() && is_digit_byte(b[pos]) {
        1 + digit_run(b, pos + 1)
    } else {
        0
    }
}

/// Decimal value of a string of ASCII digits.
pub open spec fn dec_val(s: Seq<u8>) -> nat
    decreases s.len(),
{
    if s.len() == 0 {
        0
    } else {
        dec_val(s.drop_last()) * 10 + (s.last() as int - 48) as nat
    }
}

pub open spec fn msg_expected(c: u8, pos: nat) -> Seq<char> {
    "se esperaba '"@ + seq![c as char] + "' en la posición "@ + dec(pos)
}

pub open spec fn msg_no_number(pos: nat) -> Seq<char> {
    "se esperaba un número en la posición "@ + dec(pos)
}

pub open spec fn msg_overflow(pos: nat) -> Seq<char> {
    "número desbordado en la posición "@ + dec(pos)
}

/// `{:?}` of an `Option<u8>`.
pub open spec fn opt_byte_text(o: Option<u8>) -> Seq<char> {
    match o {
        Some(v) => "Some("@ + dec(v as nat) + ")"@,
        None => "None"@,
    }
}

pub open spec fn msg_no_content(o: Option<u8>, pos: nat) -> Seq<char> {
    "celda sin pane ni hijos (byte "@ + opt_byte_text(o) + ") en la posición "@ + dec(pos)
}

pub open spec fn msg_single_child() -> Seq<char> {
    "split con un solo hijo: tmux nunca lo emite"@
}

pub open spec fn msg_trailing(pos: nat) -> Seq<char> {
    "contenido inesperado tras el layout en la posición "@ + dec(pos)
}

/// A decimal number at `pos`, at most `max`: its value and its length.
pub open spec fn number(b: Seq<u8>, pos: nat, max: nat) -> Result<(nat, nat), Seq<char>> {
    let n = digit_run(b, pos as int);
    if n == 0 {
        Err(msg_no_number(pos))
    } else if dec_val(b.subrange(pos as int, (pos + n) as int)) > max {
        Err(msg_overflow(pos))
    } else {
        Ok((dec_val(b.subrange(pos as int, (pos + n) as int)), n))
    }
}

/// The byte `sep` at `pos`, then a number: its value and the bytes consumed.
pub open spec fn sep_number(b: Seq<u8>, pos: nat, sep: u8, max: nat) -> Result<(nat, nat), Seq<char>> {
    if peek(b, pos) != Some(sep) {
        Err(msg_expected(sep, pos))
    } else {
        match number(b, pos + 1, max) {
            Err(e) => Err(e),
            Ok((v, n)) => Ok((v, n + 1)),
        }
    }
}

/// `WxH,X,Y` at `pos`: the four values and the bytes consumed.
pub open spec fn geometry(b: Seq<u8>, pos: nat) -> Result<(nat, nat, nat, nat, nat), Seq<char>> {
    match number(b, pos, 0xffff_ffff) {
        Err(e) => Err(e),
        Ok((w, n1)) => match sep_number(b, pos + n1, 120u8, 0xffff_ffff) {
            Err(e) => Err(e),
            Ok((h, n2)) => match sep_number(b, pos + n1 + n2, 44u8, 0xffff_ffff) {
                Err(e) => Err(e),
                Ok((x, n3)) => match sep_number(b, pos + n1 + n2 + n3, 44u8, 0xffff_ffff) {
                    Err(e) => Err(e),
                    Ok((y, n4)) => Ok((w, h, x, y, n1 + n2 + n3 + n4)),
                },
            },
        },
    }
}

/// A cell at `pos`: the cell and the bytes consumed.
pub open spec fn parse_cell(b: Seq<u8>, pos: nat) -> Result<(CellV, nat), Seq<char>>
    decreases b.len() - pos, 1nat,
{
    match geometry(b, pos) {
        Err(e) => Err(e),
        Ok((w, h, x, y, g)) => {
            let p = pos + g;
            let kind = if peek(b, p) == Some(44u8) {
                match number(b, p + 1, 0xffff_ffff_ffff_ffff) {
                    Err(e) => Err(e),
                    Ok((pane, n)) => Ok((KindV::Leaf { pane: pane as u64 }, n + 1)),
                }
            } else if peek(b, p) == Some(123u8) {
                parse_split(b, p, 123u8, 125u8, SplitDir::LeftRight)
            } else if peek(b, p) == Some(91u8) {
                parse_split(b, p, 91u8, 93u8, SplitDir::TopBottom)
            } else {
                Err(msg_no_content(peek(b, p), p))
            };
            match kind {
                Err(e) => Err(e),
                Ok((k, m)) => Ok((
                    CellV { width: w as u32, height: h as u32, x: x as u32, y: y as u32, kind: k },
                    g + m,
                )),
            }
        },
    }
}

/// A split opened by `open` at `pos`: its kind and the bytes consumed.
pub open spec fn parse_split(b: Seq<u8>, pos: nat, open: u8, close: u8, dir: SplitDir) -> Result<(KindV, nat), Seq<char>>
    decreases b.len() - pos, 0nat,
{
    if peek(b, pos) != Some(open) {
        Err(msg_expected(open, pos))
    } else {
        match parse_cell(b, pos + 1) {
            Err(e) => Err(e),
            Ok((c, m)) => {
                let q = pos + 1 + m;
                let rest = if q <= b.len() {
                    split_rest(b, q, close, seq![c])
                } else {
                    Err(msg_expected(close, q))
                };
                split_kind(rest, dir, pos)
            },
        }
    }
}

pub open spec fn split_kind(rest: Result<(Seq<CellV>, nat), Seq<char>>, dir: SplitDir, pos: nat) -> Result<(KindV, nat), Seq<char>> {
    match rest {
        Err(e) => Err(e),
        Ok((cs, end)) => Ok((KindV::Split { dir, children: cs }, (end - pos) as nat)),
    }
}

/// The rest of a split after its first child: `,<cell>` repeated, then
/// `close`. Gives the children and the position after `close`.
pub open spec fn split_rest(b: Seq<u8>, pos: nat, close: u8, acc: Seq<CellV>) -> Result<(Seq<CellV>, nat), Seq<char>>
    decreases b.len() - pos, 0nat,
{
    if peek(b, pos) == Some(44u8) {
        match parse_cell(b, pos + 1) {
            Err(e) => Err(e),
            Ok((c, m)) => {
                let q = pos + 1 + m;
                if q <= b.len() {
                    split_rest(b, q, close, acc.push(c))
                } else {
                    Err(msg_expected(close, q))
                }
            },
        }
    } else if peek(b, pos) == Some(close) {
        if acc.len() < 2 {
            Err(msg_single_child())
        } else {
            Ok((acc, pos + 1))
        }
    } else {
        Err(msg_expected(close, pos))
    }
}

pub open spec fn msg_no_checksum(s: Seq<char>) -> Seq<char> {
    "layout sin checksum: "@ + debug_text(s)
}

pub open spec fn msg_bad_checksum_text(cs: Seq<char>) -> Seq<char> {
    "checksum no hexadecimal: "@ + debug_text(cs)
}

pub open spec fn msg_checksum_mismatch(expected: u16, actual: u16) -> Seq<char> {
    "checksum del layout no coincide: esperado "@ + hex4(expected) + ", calculado "@ + hex4(actual)
}

/// A whole layout string `checksum,tree`: the checksum must be hexadecimal
/// and equal tmux's checksum of the body, and the tree must span the body.
pub open spec fn layout_spec(s: Seq<char>) -> Result<CellV, Seq<char>> {
    match split_once(s, seq![',']) {
        None => Err(msg_no_checksum(s)),
        Some((cs, body)) => match parse_uint(cs, 16, 0xffff) {
            None => Err(msg_bad_checksum_text(cs)),
            Some(expected) => {
                let b = encode_utf8(body);
                let actual = checksum_of(b);
                if actual != expected {
                    Err(msg_checksum_mismatch(expected as u16, actual))
                } else {
                    match parse_cell(b, 0) {
                        Err(e) => Err(e),
                        Ok((c, m)) => if m != b.len() {
                            Err(msg_trailing(m))
                        } else {
                            Ok(c)
                        },
                    }
                }
            },
        },
    }
}

// ─── Lemmas ──────────────────────────────────────────────────────────────────

pub proof fn lemma_cells_v_len(cs: Seq<LayoutCell>)
    ensures
        cells_v(cs).len() == cs.len(),
    decreases cs.len(),
{
    if cs.len() > 0 {
        lemma_cells_v_len(cs.drop_last());
    }
}

pub proof fn lemma_cells_v_push(cs: Seq<LayoutCell>, c: LayoutCell)
    ensures
        cells_v(cs.push(c)) == cells_v(cs).push(cell_v(c)),
{
    assert(cs.push(c).drop_last() =~= cs);
}

/// A prefix of a digit string never has a larger value than the string.
pub proof fn lemma_dec_val_prefix(s: Seq<u8>, k: int)
    requires
        0 <= k <= s.len(),
        forall|i: int| 0 <= i < s.len() ==> is_digit_byte(#[trigger] s[i]),
    ensures
        dec_val(s.take(k)) <= dec_val(s),
    decreases s.len(),
{
    if k < s.len() {
        let t = s.drop_last();
        assert(t.take(k) =~= s.take(k));
        lemma_dec_val_prefix(t, k);
    } else {
        assert(s.take(k) =~= s);
    }
}

// ─── Executable parser ───────────────────────────────────────────────────────

/// tmux's checksum of a layout body: rotate right and add, byte by byte.
pub fn layout_checksum(body: &str) -> (r: u16)
    ensures
        r == checksum_of(encode_utf8(body@)),
{
    let b = body.as_bytes();
    let mut csum: u16 = 0;
    let mut i: usize = 0;
    while i < b.len()
        invariant
            i <= b@.len(),
            b@ == encode_utf8(body@),
            csum == checksum_of(b@.take(i as int)),
        decreases b.len() - i,
    {
        let hi: u16 = csum >> 1;
        let lo: u16 = (csum & 1) << 15;
        assert(hi == csum / 2 && lo == (csum % 2) * 32768) by (bit_vector)
            requires
                hi == csum >> 1,
                lo == (csum & 1) << 15,
        ;
        let rot: u16 = hi + lo;
        csum = ((rot as u32 + b[i] as u32) % 65536) as u16;
        assert(b@.take(i + 1).drop_last() =~= b@.take(i as int));
        i += 1;
    }
    assert(b@.take(i as int) =~= b@);
    csum
}

pub open spec fn num_res(r: Result<(u64, usize), String>) -> Result<(nat, nat), Seq<char>> {
    match r {
        Ok((v, n)) => Ok((v as nat, n as nat)),
        Err(e) => Err(e@),
    }
}

fn msg_expected_exec(c: u8, pos: usize) -> (r: String)
    ensures
        r@ == msg_expected(c, pos as nat),
{
    let mut out = String::new();
    push_str(&mut out, "se esperaba '");
    push_char(&mut out, c as char);
    push_str(&mut out, "' en la posición ");
    push_dec(&mut out, pos as u64);
    assert(out@ =~= msg_expected(c, pos as nat));
    out
}

fn msg_pos_exec(prefix: &str, pos: usize) -> (r: String)
    ensures
        r@ == prefix@ + dec(pos as nat),
{
    let mut out = String::new();
    push_str(&mut out, prefix);
    push_dec(&mut out, pos as u64);
    assert(out@ =~= prefix@ + dec(pos as nat));
    out
}

/// A decimal number at `pos` no larger than `max`: its value and length.
fn number_at(b: &[u8], pos: usize, max: u64) -> (r: Result<(u64, usize), String>)
    requires
        pos <= b.len(),
    ensures
        num_res(r) == number(b@, pos as nat, max as nat),
        match r {
            Ok((_, n)) => pos + n <= b.len(),
            Err(_) => true,
        },
{
    let mut i: usize = pos;
    while i < b.len() && 48u8 <= b[i] && b[i] <= 57u8
        invariant
            pos <= i <= b.len(),
            digit_run(b@, pos as int) == (i - pos) + digit_run(b@, i as int),
            forall|k: int| pos <= k < i ==> is_digit_byte(#[trigger] b@[k]),
        decreases b.len() - i,
    {
        i += 1;
    }
    assert(digit_run(b@, i as int) == 0);
    let n: usize = i - pos;
    if n == 0 {
        return Err(msg_pos_exec("se esperaba un número en la posición ", pos));
    }
    let ghost s = b@.subrange(pos as int, i as int);
    let mut acc: u64 = 0;
    let mut k: usize = pos;
    while k < i
        invariant
            pos <= k <= i <= b.len(),
            s == b@.subrange(pos as int, i as int),
            digit_run(b@, pos as int) == i - pos,
            forall|j: int| pos <= j < i ==> is_digit_byte(#[trigger] b@[j]),
            acc as nat == dec_val(b@.subrange(pos as int, k as int)),
            acc <= max,
        decreases i - k,
    {
        let d: u8 = b[k] - 48;
        let big: u128 = (acc as u128) * 10 + (d as u128);
        let ghost next = b@.subrange(pos as int, k + 1);
        assert(next.drop_last() =~= b@.subrange(pos as int, k as int));
        assert(dec_val(next) == big);
        if big > max as u128 {
            proof {
                assert forall|j: int| 0 <= j < s.len() implies is_digit_byte(#[trigger] s[j]) by {
                    assert(s[j] == b@[pos + j]);
                }
                assert(s.take(k + 1 - pos) =~= next);
                lemma_dec_val_prefix(s, k + 1 - pos);
            }
            return Err(msg_pos_exec("número desbordado en la posición ", pos));
        }
        acc = big as u64;
        k += 1;
    }
    Ok((acc, n))
}

fn sep_number_at(b: &[u8], pos: usize, sep: u8, max: u64) -> (r: Result<(u64, usize), String>)
    requires
        pos <= b.len(),
    ensures
        num_res(r) == sep_number(b@, pos as nat, sep, max as nat),
        match r {
            Ok((_, n)) => pos + n <= b.len(),
            Err(_) => true,
        },
{
    if !(pos < b.len() && b[pos] == sep) {
        return Err(msg_expected_exec(sep, pos));
    }
    match number_at(b, pos + 1, max) {
        Err(e) => Err(e),
        Ok((v, n)) => Ok((v, n + 1)),
    }
}

pub open spec fn geo_res(r: Result<(u32, u32, u32, u32, usize), String>) -> Result<(nat, nat, nat, nat, nat), Seq<char>> {
    match r {
        Ok((w, h, x, y, n)) => Ok((w as nat, h as nat, x as nat, y as nat, n as nat)),
        Err(e) => Err(e@),
    }
}

fn geometry_at(b: &[u8], pos: usize) -> (r: Result<(u32, u32, u32, u32, usize), String>)
    requires
        pos <= b.len(),
    ensures
        geo_res(r) == geometry(b@, pos as nat),
        match r {
            Ok((_, _, _, _, n)) => pos + n <= b.len(),
            Err(_) => true,
        },
{
    let (w, n1) = match number_at(b, pos, 0xffff_ffff) {
        Err(e) => return Err(e),
        Ok(t) => t,
    };
    let (h, n2) = match sep_number_at(b, pos + n1, 120u8, 0xffff_ffff) {
        Err(e) => return Err(e),
        Ok(t) => t,
    };
    let (x, n3) = match sep_number_at(b, pos + n1 + n2, 44u8, 0xffff_ffff) {
        Err(e) => return Err(e),
        Ok(t) => t,
    };
    let (y, n4) = match sep_number_at(b, pos + n1 + n2 + n3, 44u8, 0xffff_ffff) {
        Err(e) => return Err(e),
        Ok(t) => t,
    };
    Ok((w as u32, h as u32, x as u32, y as u32, n1 + n2 + n3 + n4))
}

pub open spec fn cell_res(r: Result<(LayoutCell, usize), String>) -> Result<(CellV, nat), Seq<char>> {
    match r {
        Ok((c, n)) => Ok((c@, n as nat)),
        Err(e) => Err(e@),
    }
}

pub open spec fn kind_res(r: Result<(LayoutKind, usize), String>) -> Result<(KindV, nat), Seq<char>> {
    match r {
        Ok((k, n)) => Ok((kind_v(k), n as nat)),
        Err(e) => Err(e@),
    }
}

fn msg_no_content_exec(o: Option<u8>, pos: usize) -> (r: String)
    ensures
        r@ == msg_no_content(o, pos as nat),
{
    let mut out = String::new();
    push_str(&mut out, "celda sin pane ni hijos (byte ");
    match o {
        Some(v) => {
            push_str(&mut out, "Some(");
            push_dec(&mut out, v as u64);
            push_str(&mut out, ")");
        },
        None => {
            push_str(&mut out, "None");
        },
    }
    push_str(&mut out, ") en la posición ");
    push_dec(&mut out, pos as u64);
    assert(out@ =~= msg_no_content(o, pos as nat));
    out
}

fn parse_cell_at(b: &[u8], pos: usize) -> (r: Result<(LayoutCell, usize), String>)
    requires
        pos <= b.len(),
    ensures
        cell_res(r) == parse_cell(b@, pos as nat),
        match r {
            Ok((_, n)) => pos + n <= b.len(),
            Err(_) => true,
        },
    decreases b.len() - pos, 1nat,
{
    let (w, h, x, y, g) = match geometry_at(b, pos) {
        Err(e) => return Err(e),
        Ok(t) => t,
    };
    let p = pos + g;
    let kind: Result<(LayoutKind, usize), String> = if p < b.len() && b[p] == 44u8 {
        match number_at(b, p + 1, 0xffff_ffff_ffff_ffff) {
            Err(e) => Err(e),
            Ok((pane, n)) => Ok((LayoutKind::Leaf { pane }, n + 1)),
        }
    } else if p < b.len() && b[p] == 123u8 {
        parse_split_at(b, p, 123u8, 125u8, SplitDir::LeftRight)
    } else if p < b.len() && b[p] == 91u8 {
        parse_split_at(b, p, 91u8, 93u8, SplitDir::TopBottom)
    } else {
        let o: Option<u8> = if p < b.len() {
            Some(b[p])
        } else {
            None
        };
        Err(msg_no_content_exec(o, p))
    };
    match kind {
        Err(e) => Err(e),
        Ok((k, m)) => Ok((LayoutCell { width: w, height: h, x, y, kind: k }, g + m)),
    }
}

fn parse_split_at(b: &[u8], pos: usize, open: u8, close: u8, dir: SplitDir) -> (r: Result<(LayoutKind, usize), String>)
    requires
        pos <= b.len(),
    ensures
        kind_res(r) == parse_split(b@, pos as nat, open, close, dir),
        match r {
            Ok((_, n)) => pos + n <= b.len(),
            Err(_) => true,
        },
    decreases b.len() - pos, 0nat,
{
    if !(pos < b.len() && b[pos] == open) {
        return Err(msg_expected_exec(open, pos));
    }
    let (c0, m0) = match parse_cell_at(b, pos + 1) {
        Err(e) => return Err(e),
        Ok(t) => t,
    };
    let ghost c0v = c0@;
    let ghost q0: nat = (pos + 1 + m0) as nat;
    let mut q: usize = pos + 1 + m0;
    let mut children: Vec<LayoutCell> = Vec::new();
    proof {
        lemma_cells_v_push(children@, c0);
        assert(cells_v(children@) =~= Seq::<CellV>::empty());
    }
    children.push(c0);
    assert(cells_v(children@) =~= seq![c0v]);
    assert(parse_split(b@, pos as nat, open, close, dir) == split_kind(
        split_rest(b@, q0, close, seq![c0v]),
        dir,
        pos as nat,
    ));
    while q < b.len() && b[q] == 44u8
        invariant
            pos < q <= b.len(),
            parse_split(b@, pos as nat, open, close, dir) == split_kind(
                split_rest(b@, q0, close, seq![c0v]),
                dir,
                pos as nat,
            ),
            split_rest(b@, q as nat, close, cells_v(children@)) == split_rest(b@, q0, close, seq![c0v]),
        decreases b.len() - q,
    {
        match parse_cell_at(b, q + 1) {
            Err(e) => {
                return Err(e);
            },
            Ok((c, m)) => {
                proof {
                    lemma_cells_v_push(children@, c);
                }
                children.push(c);
                q = q + 1 + m;
            },
        }
    }
    if q < b.len() && b[q] == close {
        proof {
            lemma_cells_v_len(children@);
        }
        if children.len() < 2 {
            Err("split con un solo hijo: tmux nunca lo emite".to_string())
        } else {
            Ok((LayoutKind::Split { dir, children }, q + 1 - pos))
        }
    } else {
        Err(msg_expected_exec(close, q))
    }
}

fn error_with(prefix: &str, detail: &str) -> (r: String)
    ensures
        r@ == prefix@ + detail@,
{
    let mut out = String::new();
    push_str(&mut out, prefix);
    push_str(&mut out, detail);
    assert(out@ =~= prefix@ + detail@);
    out
}

/// Parses a whole layout string (`checksum,tree`). The checksum is checked:
/// a corrupt layout is rejected, not guessed.
pub fn parse_layout(input: &str) -> (r: Result<LayoutCell, String>)
    ensures
        match r {
            Ok(c) => layout_spec(input@) == Ok::<CellV, Seq<char>>(c@),
            Err(e) => layout_spec(input@) == Err::<CellV, Seq<char>>(e@),
        },
{
    let s = chars_of(input);
    let comma: Vec<char> = vec![','];
    assert(comma@ =~= seq![',']);
    let (cs, body) = match split_once_chars(&s, &comma) {
        None => {
            let d = debug_string(input);
            return Err(error_with("layout sin checksum: ", d.as_str()));
        },
        Some(t) => t,
    };
    let expected = match parse_uint_chars(&cs, 16, 0xffff) {
        None => {
            let cs_s = string_of(&cs);
            let d = debug_string(cs_s.as_str());
            return Err(error_with("checksum no hexadecimal: ", d.as_str()));
        },
        Some(v) => v,
    };
    let body_s = string_of(&body);
    let actual = layout_checksum(body_s.as_str());
    if actual as u64 != expected {
        let mut out = String::new();
        push_str(&mut out, "checksum del layout no coincide: esperado ");
        push_hex4(&mut out, expected as u16);
        push_str(&mut out, ", calculado ");
        push_hex4(&mut out, actual);
        assert(out@ =~= msg_checksum_mismatch(expected as u16, actual));
        return Err(out);
    }
    let b = body_s.as_str().as_bytes();
    match parse_cell_at(b, 0) {
        Err(e) => Err(e),
        Ok((c, m)) => {
            if m != b.len() {
                Err(msg_pos_exec("contenido inesperado tras el layout en la posición ", m))
            } else {
                Ok(c)
            }
        },
    }
}

fn clone_cell(c: &LayoutCell) -> (r: LayoutCell)
    ensures
        r@ == c@,
    decreases *c, 1nat,
{
    LayoutCell { width: c.width, height: c.height, x: c.x, y: c.y, kind: clone_kind(&c.kind) }
}

fn clone_kind(k: &LayoutKind) -> (r: LayoutKind)
    ensures
        kind_v(r) == kind_v(*k),
    decreases *k, 0nat,
{
    match k {
        LayoutKind::Leaf { pane } => LayoutKind::Leaf { pane: *pane },
        LayoutKind::Split { dir, children } => {
            let mut out: Vec<LayoutCell> = Vec::new();
            let mut i: usize = 0;
            while i < children.len()
                invariant
                    i <= children@.len(),
                    *k == (LayoutKind::Split { dir: *dir, children: *children }),
                    cells_v(out@) == cells_v(children@.take(i as int)),
                decreases children.len() - i,
            {
                proof {
                    assert(decreases_to!(*k => (*k)->children));
                    assert(decreases_to!(*children => children@));
                    assert(decreases_to!(children@ => children@[i as int]));
                }
                let c = clone_cell(&children[i]);
                proof {
                    lemma_cells_v_push(out@, c);
                    lemma_cells_v_push(children@.take(i as int), children@[i as int]);
                    assert(children@.take(i + 1) =~= children@.take(i as int).push(children@[i as int]));
                }
                out.push(c);
                i += 1;
            }
            assert(children@.take(i as int) =~= children@);
            LayoutKind::Split { dir: *dir, children: out }
        },
    }
}

impl Clone for LayoutCell {
    fn clone(&self) -> (r: Self)
        ensures
            r@ == self@,
    {
        clone_cell(self)
    }
}

impl Clone for LayoutKind {
    fn clone(&self) -> (r: Self)
        ensures
            kind_v(r) == kind_v(*self),
    {
        clone_kind(self)
    }
}

impl LayoutCell {
    /// Pane ids in order of appearance (left to right, top to bottom).
    pub fn pane_ids(&self) -> (r: Vec<u64>)
        ensures
            r@ == panes_of(self@),
    {
        let mut out: Vec<u64> = Vec::new();
        self.collect_panes(&mut out);
        assert(out@ =~= panes_of(self@));
        out
    }

    fn collect_panes(&self, out: &mut Vec<u64>)
        ensures
            final(out)@ == old(out)@ + panes_of(self@),
        decreases *self,
    {
        match &self.kind {
            LayoutKind::Leaf { pane } => {
                out.push(*pane);
                assert(final(out)@ =~= old(out)@ + panes_of(self@));
            },
            LayoutKind::Split { dir, children } => {
                let ghost start = out@;
                let mut i: usize = 0;
                while i < children.len()
                    invariant
                        i <= children@.len(),
                        self.kind == (LayoutKind::Split { dir: *dir, children: *children }),
                        out@ == start + panes_of_all(cells_v(children@.take(i as int))),
                    decreases children.len() - i,
                {
                    proof {
                        assert(decreases_to!(*self => self.kind));
                        assert(decreases_to!(self.kind => self.kind->children));
                        assert(decreases_to!(*children => children@));
                        assert(decreases_to!(children@ => children@[i as int]));
                    }
                    let ghost before = out@;
                    children[i].collect_panes(out);
                    proof {
                        let t = children@.take(i as int);
                        assert(children@.take(i + 1) =~= t.push(children@[i as int]));
                        lemma_cells_v_push(t, children@[i as int]);
                        let cv = cells_v(t).push(cell_v(children@[i as int]));
                        assert(cv.drop_last() =~= cells_v(t));
                        assert(panes_of_all(cv) == panes_of_all(cells_v(t)) + panes_of(cell_v(children@[i as int])));
                        assert(out@ =~= start + panes_of_all(cells_v(children@.take(i + 1))));
                    }
                    i += 1;
                }
                assert(children@.take(i as int) =~= children@);
                assert(final(out)@ =~= old(out)@ + panes_of(self@));
            },
        }
    }
}

// ─── Every pane of the text is in the tree ──────────────────────────────────

/// Occurrences of the byte `x` in `s`.
pub open spec fn byte_count(s: Seq<u8>, x: u8) -> nat
    decreases s.len(),
{
    if s.len() == 0 {
        0
    } else {
        byte_count(s.drop_last(), x) + if s.last() == x {
            1nat
        } else {
            0nat
        }
    }
}

/// Commas of a piece of layout text, less two for each opening bracket.
/// A pane's cell `WxH,X,Y,<id>` weighs 3, and a split adds one comma per
/// child after the first and one bracket, so a cell with `n` panes weighs
/// `4n - 1`.
pub open spec fn layout_weight(s: Seq<u8>) -> int {
    byte_count(s, 44u8) - 2 * (byte_count(s, 123u8) + byte_count(s, 91u8))
}

proof fn lemma_byte_count_add(s1: Seq<u8>, s2: Seq<u8>, x: u8)
    ensures
        byte_count(s1 + s2, x) == byte_count(s1, x) + byte_count(s2, x),
    decreases s2.len(),
{
    if s2.len() > 0 {
        assert((s1 + s2).drop_last() =~= s1 + s2.drop_last());
        lemma_byte_count_add(s1, s2.drop_last(), x);
    } else {
        assert(s1 + s2 =~= s1);
    }
}

proof fn lemma_weight_split(b: Seq<u8>, a: int, m: int, e: int)
    requires
        0 <= a <= m <= e <= b.len(),
    ensures
        layout_weight(b.subrange(a, e)) == layout_weight(b.subrange(a, m)) + layout_weight(b.subrange(m, e)),
        byte_count(b.subrange(a, e), 123u8) == byte_count(b.subrange(a, m), 123u8) + byte_count(b.subrange(m, e), 123u8),
        byte_count(b.subrange(a, e), 91u8) == byte_count(b.subrange(a, m), 91u8) + byte_count(b.subrange(m, e), 91u8),
{
    assert(b.subrange(a, e) =~= b.subrange(a, m) + b.subrange(m, e));
    lemma_byte_count_add(b.subrange(a, m), b.subrange(m, e), 44u8);
    lemma_byte_count_add(b.subrange(a, m), b.subrange(m, e), 123u8);
    lemma_byte_count_add(b.subrange(a, m), b.subrange(m, e), 91u8);
}

proof fn lemma_weight_byte(b: Seq<u8>, p: int)
    requires
        0 <= p < b.len(),
    ensures
        layout_weight(b.subrange(p, p + 1)) == if b[p] == 44u8 {
            1int
        } else if b[p] == 123u8 || b[p] == 91u8 {
            -2int
        } else {
            0int
        },
        byte_count(b.subrange(p, p + 1), 123u8) == if b[p] == 123u8 {
            1nat
        } else {
            0nat
        },
        byte_count(b.subrange(p, p + 1), 91u8) == if b[p] == 91u8 {
            1nat
        } else {
            0nat
        },
{
    let s = b.subrange(p, p + 1);
    assert(s.drop_last() =~= Seq::<u8>::empty());
    assert(s.last() == b[p]);
    assert(byte_count(Seq::<u8>::empty(), 44u8) == 0);
    assert(byte_count(Seq::<u8>::empty(), 123u8) == 0);
    assert(byte_count(Seq::<u8>::empty(), 91u8) == 0);
}

proof fn lemma_digits_weigh_nothing(s: Seq<u8>)
    requires
        forall|i: int| 0 <= i < s.len() ==> is_digit_byte(#[trigger] s[i]),
    ensures
        byte_count(s, 44u8) == 0,
        byte_count(s, 123u8) == 0,
        byte_count(s, 91u8) == 0,
        layout_weight(s) == 0,
    decreases s.len(),
{
    if s.len() > 0 {
        let t = s.drop_last();
        assert forall|i: int| 0 <= i < t.len() implies is_digit_byte(#[trigger] t[i]) by {
            assert(t[i] == s[i]);
        }
        lemma_digits_weigh_nothing(t);
        assert(is_digit_byte(s[s.len() - 1]));
    }
}

proof fn lemma_digit_run_digits(b: Seq<u8>, pos: int)
    requires
        0 <= pos,
    ensures
        digit_run(b, pos) > 0 ==> pos + digit_run(b, pos) <= b.len(),
        forall|i: int| pos <= i < pos + digit_run(b, pos) ==> is_digit_byte(#[trigger] b[i]),
    decreases b.len() - pos,
{
    if 0 <= pos < b.len() && is_digit_byte(b[pos]) {
        lemma_digit_run_digits(b, pos + 1);
    }
}

proof fn lemma_number_weight(b: Seq<u8>, pos: nat, max: nat)
    ensures
        number(b, pos, max) matches Ok((v, n)) ==> pos + n <= b.len() && layout_weight(
            b.subrange(pos as int, (pos + n) as int),
        ) == 0 && byte_count(b.subrange(pos as int, (pos + n) as int), 123u8) == 0 && byte_count(
            b.subrange(pos as int, (pos + n) as int),
            91u8,
        ) == 0,
{
    lemma_digit_run_digits(b, pos as int);
    let n = digit_run(b, pos as int);
    if n > 0 {
        let s = b.subrange(pos as int, (pos + n) as int);
        assert forall|i: int| 0 <= i < s.len() implies is_digit_byte(#[trigger] s[i]) by {
            assert(s[i] == b[pos + i]);
        }
        lemma_digits_weigh_nothing(s);
    }
}

proof fn lemma_sep_number_weight(b: Seq<u8>, pos: nat, sep: u8, max: nat)
    requires
        sep == 44u8 || sep == 120u8,
    ensures
        sep_number(b, pos, sep, max) matches Ok((v, n)) ==> pos + n <= b.len() && layout_weight(
            b.subrange(pos as int, (pos + n) as int),
        ) == if sep == 44u8 {
            1int
        } else {
            0int
        } && byte_count(b.subrange(pos as int, (pos + n) as int), 123u8) == 0 && byte_count(
            b.subrange(pos as int, (pos + n) as int),
            91u8,
        ) == 0,
{
    if peek(b, pos) == Some(sep) {
        lemma_number_weight(b, pos + 1, max);
        if let Ok((v, n)) = number(b, pos + 1, max) {
            lemma_weight_byte(b, pos as int);
            lemma_weight_split(b, pos as int, (pos + 1) as int, (pos + 1 + n) as int);
        }
    }
}

proof fn lemma_geometry_weight(b: Seq<u8>, pos: nat)
    ensures
        geometry(b, pos) matches Ok((w, h, x, y, g)) ==> pos + g <= b.len() && layout_weight(
            b.subrange(pos as int, (pos + g) as int),
        ) == 2 && byte_count(b.subrange(pos as int, (pos + g) as int), 123u8) == 0 && byte_count(
            b.subrange(pos as int, (pos + g) as int),
            91u8,
        ) == 0,
{
    lemma_number_weight(b, pos, 0xffff_ffff);
    if let Ok((w, n1)) = number(b, pos, 0xffff_ffff) {
        lemma_sep_number_weight(b, pos + n1, 120u8, 0xffff_ffff);
        if let Ok((h, n2)) = sep_number(b, pos + n1, 120u8, 0xffff_ffff) {
            lemma_sep_number_weight(b, pos + n1 + n2, 44u8, 0xffff_ffff);
            if let Ok((x, n3)) = sep_number(b, pos + n1 + n2, 44u8, 0xffff_ffff) {
                lemma_sep_number_weight(b, pos + n1 + n2 + n3, 44u8, 0xffff_ffff);
                if let Ok((y, n4)) = sep_number(b, pos + n1 + n2 + n3, 44u8, 0xffff_ffff) {
                    let a = pos as int;
                    lemma_weight_split(b, (a) as int, (a + n1) as int, (a + n1 + n2 + n3 + n4) as int);
                    lemma_weight_split(b, (a + n1) as int, (a + n1 + n2) as int, (a + n1 + n2 + n3 + n4) as int);
                    lemma_weight_split(b, (a + n1 + n2) as int, (a + n1 + n2 + n3) as int, (a + n1 + n2 + n3 + n4) as int);
                }
            }
        }
    }
}

/// A cell read from the text weighs `4n - 1` for its `n` panes: no pane of
/// the text it spans is left out of the tree, nor any added.
pub proof fn lemma_cell_keeps_every_pane(b: Seq<u8>, pos: nat)
    ensures
        parse_cell(b, pos) matches Ok((c, m)) ==> pos + m <= b.len() && layout_weight(
            b.subrange(pos as int, (pos + m) as int),
        ) == 4 * panes_of(c).len() - 1,
        parse_cell(b, pos) matches Ok((c, m)) ==> (c.kind matches KindV::Split { dir, .. } ==> exists|j: int|
            #![trigger b[j]]
            pos <= j < pos + m - 1 && byte_count(b.subrange(pos as int, j), 123u8) == 0 && byte_count(
                b.subrange(pos as int, j),
                91u8,
            ) == 0 && b[j] == (if dir == SplitDir::LeftRight {
                123u8
            } else {
                91u8
            }) && b[pos + m - 1] == (if dir == SplitDir::LeftRight {
                125u8
            } else {
                93u8
            })),
    decreases b.len() - pos, 1nat,
{
    lemma_geometry_weight(b, pos);
    if let Ok((w, h, x, y, g)) = geometry(b, pos) {
        let p = pos + g;
        if peek(b, p) == Some(44u8) {
            lemma_number_weight(b, p + 1, 0xffff_ffff_ffff_ffff);
            if let Ok((pane, n)) = number(b, p + 1, 0xffff_ffff_ffff_ffff) {
                lemma_weight_byte(b, p as int);
                lemma_weight_split(b, p as int, (p + 1) as int, (p + 1 + n) as int);
                lemma_weight_split(b, pos as int, p as int, (p + 1 + n) as int);
            }
        } else if peek(b, p) == Some(123u8) {
            lemma_split_keeps_every_pane(b, p, 123u8, 125u8, SplitDir::LeftRight);
            if let Ok((k, m2)) = parse_split(b, p, 123u8, 125u8, SplitDir::LeftRight) {
                lemma_weight_split(b, pos as int, p as int, (p + m2) as int);
            }
        } else if peek(b, p) == Some(91u8) {
            lemma_split_keeps_every_pane(b, p, 91u8, 93u8, SplitDir::TopBottom);
            if let Ok((k, m2)) = parse_split(b, p, 91u8, 93u8, SplitDir::TopBottom) {
                lemma_weight_split(b, pos as int, p as int, (p + m2) as int);
            }
        }
    }
}

/// A split read from the text (its brackets and children) weighs `4n - 3`
/// for the `n` panes of its children.
pub proof fn lemma_split_keeps_every_pane(b: Seq<u8>, pos: nat, open: u8, close: u8, dir: SplitDir)
    requires
        (open == 123u8 && close == 125u8) || (open == 91u8 && close == 93u8),
    ensures
        parse_split(b, pos, open, close, dir) matches Ok((k, m)) ==> k is Split && pos + m <= b.len()
            && layout_weight(b.subrange(pos as int, (pos + m) as int)) == 4 * panes_of_all(k->children).len() - 3
            && k->dir == dir && m >= 2 && b[pos as int] == open && b[pos + m - 1] == close,
    decreases b.len() - pos, 0nat,
{
    if peek(b, pos) == Some(open) {
        lemma_cell_keeps_every_pane(b, pos + 1);
        if let Ok((c, m)) = parse_cell(b, pos + 1) {
            let q = pos + 1 + m;
            if q <= b.len() {
                lemma_rest_keeps_every_pane(b, q, close, seq![c]);
                if let Ok((cs, end)) = split_rest(b, q, close, seq![c]) {
                    assert(seq![c].drop_last() =~= Seq::<CellV>::empty());
                    assert(panes_of_all(Seq::<CellV>::empty()) =~= Seq::<u64>::empty());
                    assert(panes_of_all(seq![c]) =~= panes_of(c));
                    lemma_weight_byte(b, pos as int);
                    lemma_weight_split(b, pos as int, (pos + 1) as int, q as int);
                    lemma_weight_split(b, pos as int, q as int, end as int);
                }
            }
        }
    }
}

/// The rest of a split after its first child, `(,<cell>)* close`, weighs
/// four times the panes of the children it adds.
pub proof fn lemma_rest_keeps_every_pane(b: Seq<u8>, pos: nat, close: u8, acc: Seq<CellV>)
    requires
        close == 125u8 || close == 93u8,
        pos <= b.len(),
    ensures
        split_rest(b, pos, close, acc) matches Ok((cs, end)) ==> pos < end <= b.len() && layout_weight(
            b.subrange(pos as int, end as int),
        ) == 4 * (panes_of_all(cs).len() - panes_of_all(acc).len()) && b[end - 1] == close,
    decreases b.len() - pos, 0nat,
{
    if peek(b, pos) == Some(44u8) {
        lemma_cell_keeps_every_pane(b, pos + 1);
        if let Ok((c, m)) = parse_cell(b, pos + 1) {
            let q = pos + 1 + m;
            if q <= b.len() {
                lemma_rest_keeps_every_pane(b, q, close, acc.push(c));
                if let Ok((cs, end)) = split_rest(b, q, close, acc.push(c)) {
                    assert(acc.push(c).drop_last() =~= acc);
                    lemma_weight_byte(b, pos as int);
                    lemma_weight_split(b, pos as int, (pos + 1) as int, q as int);
                    lemma_weight_split(b, pos as int, q as int, end as int);
                }
            }
        }
    } else if peek(b, pos) == Some(close) {
        lemma_weight_byte(b, pos as int);
    }
}

/// The text of a layout string after its checksum.
pub open spec fn layout_body(s: Seq<char>) -> Seq<char> {
    match split_once(s, seq![',']) {
        Some((_, body)) => body,
        None => seq![],
    }
}

/// A layout string's tree holds every pane its body describes: the body
/// (the text after the checksum) weighs `4n - 1` for the `n` panes of the
/// tree, so a tree that drops or invents a pane is never the answer.
pub proof fn lemma_layout_keeps_every_pane(s: Seq<char>)
    ensures
        layout_spec(s) matches Ok(c) ==> split_once(s, seq![',']) is Some && layout_weight(
            encode_utf8(layout_body(s)),
        ) == 4 * panes_of(c).len() - 1,
{
    if let Some((cs, body)) = split_once(s, seq![',']) {
        let b = encode_utf8(body);
        lemma_cell_keeps_every_pane(b, 0);
        if let Ok((c, m)) = parse_cell(b, 0) {
            if m == b.len() {
                assert(b.subrange(0, m as int) =~= b);
            }
        }
    }
}

/// The fields of a cell come from the text in order: width, then `x` and
/// height, then `,` and the column, then `,` and the row; a pane's id is
/// the number after the next `,`.
pub proof fn lemma_cell_fields_in_order(b: Seq<u8>, pos: nat)
    ensures
        parse_cell(b, pos) matches Ok((c, m)) ==> {
            &&& number(b, pos, 0xffff_ffff) matches Ok((w, n1))
            &&& c.width == w
            &&& sep_number(b, pos + n1, 120u8, 0xffff_ffff) matches Ok((h, n2))
            &&& c.height == h
            &&& sep_number(b, pos + n1 + n2, 44u8, 0xffff_ffff) matches Ok((x, n3))
            &&& c.x == x
            &&& sep_number(b, pos + n1 + n2 + n3, 44u8, 0xffff_ffff) matches Ok((y, n4))
            &&& c.y == y
            &&& (c.kind matches KindV::Leaf { pane } ==> sep_number(
                b,
                pos + n1 + n2 + n3 + n4,
                44u8,
                0xffff_ffff_ffff_ffff,
            ) matches Ok((v, n5)) && pane == v && m == n1 + n2 + n3 + n4 + n5)
        },
{
    if let Ok((c, m)) = parse_cell(b, pos) {
        let (w, h, x, y, g) = geometry(b, pos)->Ok_0;
        let p = pos + g;
        if peek(b, p) == Some(44u8) {
            assert(sep_number(b, p, 44u8, 0xffff_ffff_ffff_ffff) is Ok);
        }
    }
}

} // verus!
