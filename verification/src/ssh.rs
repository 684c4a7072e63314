//! Pure decisions of the SSH sessions: jump host specs, log file names,
//! reconnection back-off, the legacy algorithm catalogue and the X11 cookie.
use vstd::prelude::*;
use crate::codec::{sha256, sha256_of};
use crate::text::{
    chars_of, contains, contains_chars, hex2, is_ascii_alnum, parse_uint, parse_uint_chars,
    push_hex2, push_str, rsplit_once, rsplit_once_chars, split_once, split_once_chars, str_eq,
    string_of, trim, trim_chars,
};

verus! {

// ─── Jump hosts ──────────────────────────────────────────────────────────────

/// Port of a jump spec: the number if it parses as a `u16`, else 22.
pub open spec fn jump_port(p: Seq<char>) -> u16 {
    match parse_uint(p, 10, 65535) {
        Some(v) => v as u16,
        None => 22,
    }
}

/// `[user@]host[:port]`, with IPv6 between brackets (`[::1]:2222`) or bare
/// without a port (`fe80::1`). The user defaults to `default_user` and the
/// port to 22.
pub open spec fn jump_spec_parts(spec: Seq<char>, default_user: Seq<char>) -> (Seq<char>, Seq<char>, u16) {
    let s = trim(spec);
    let (user, rest) = match split_once(s, seq!['@']) {
        Some((u, r)) => (u, r),
        None => (default_user, s),
    };
    if rest.len() > 0 && rest[0] == '[' {
        match split_once(rest.skip(1), seq![']']) {
            Some((host, after)) => (
                user,
                host,
                if after.len() > 0 && after[0] == ':' {
                    jump_port(after.skip(1))
                } else {
                    22
                },
            ),
            None => (user, rest, 22),
        }
    } else {
        match rsplit_once(rest, seq![':']) {
            Some((h, p)) => if !contains(h, seq![':']) {
                (user, h, jump_port(p))
            } else {
                (user, rest, 22)
            },
            None => (user, rest, 22),
        }
    }
}

fn jump_port_exec(p: &Vec<char>) -> (r: u16)
    ensures
        r == jump_port(p@),
{
    match parse_uint_chars(p, 10, 65535) {
        Some(v) => v as u16,
        None => 22,
    }
}

/// Splits a jump host spec into user, host and port.
pub fn parse_jump_spec(spec: &str, default_user: &str) -> (r: (String, String, u16))
    ensures
        (r.0@, r.1@, r.2) == jump_spec_parts(spec@, default_user@),
{
    let s = trim_chars(&chars_of(spec));
    let at: Vec<char> = vec!['@'];
    let colon: Vec<char> = vec![':'];
    let close: Vec<char> = vec![']'];
    assert(at@ =~= seq!['@']);
    assert(colon@ =~= seq![':']);
    assert(close@ =~= seq![']']);
    let (user, rest) = match split_once_chars(&s, &at) {
        Some((u, r)) => (u, r),
        None => (chars_of(default_user), s),
    };
    if rest.len() > 0 && rest[0] == '[' {
        let inner = crate::text::tail(&rest, 1);
        match split_once_chars(&inner, &close) {
            Some((host, after)) => {
                let port = if after.len() > 0 && after[0] == ':' {
                    jump_port_exec(&crate::text::tail(&after, 1))
                } else {
                    22
                };
                return (string_of(&user), string_of(&host), port);
            },
            None => {
                return (string_of(&user), string_of(&rest), 22);
            },
        }
    }
    match rsplit_once_chars(&rest, &colon) {
        Some((h, p)) => {
            if !contains_chars(&h, &colon) {
                let port = jump_port_exec(&p);
                (string_of(&user), string_of(&h), port)
            } else {
                (string_of(&user), string_of(&rest), 22)
            }
        },
        None => (string_of(&user), string_of(&rest), 22),
    }
}

// ─── Session logs ────────────────────────────────────────────────────────────

/// A profile name made safe for a file name: ASCII letters, digits, `-` and
/// `_` stay, anything else becomes `_`.
pub open spec fn safe_file_char(c: char) -> char {
    if is_ascii_alnum(c) || c == '-' || c == '_' {
        c
    } else {
        '_'
    }
}

/// Sanitises a profile name for a log file name, one character for one.
pub fn sanitize_filename(input: &str) -> (r: String)
    ensures
        r@ == input@.map_values(|c: char| safe_file_char(c)),
{
    let cs = chars_of(input);
    let mut out: Vec<char> = Vec::new();
    let mut i: usize = 0;
    while i < cs.len()
        invariant
            i <= cs@.len(),
            cs@ == input@,
            out@ == cs@.take(i as int).map_values(|c: char| safe_file_char(c)),
        decreases cs.len() - i,
    {
        let c = cs[i];
        let d = if crate::text::is_alnum_char(c) || c == '-' || c == '_' {
            c
        } else {
            '_'
        };
        out.push(d);
        i += 1;
        assert(out@ =~= cs@.take(i as int).map_values(|c: char| safe_file_char(c)));
    }
    assert(cs@.take(i as int) =~= cs@);
    string_of(&out)
}

/// File name of a session log: `<sanitised profile name>-<stamp>.log`.
pub fn session_log_file_name(profile_name: &str, stamp: &str) -> (r: String)
    ensures
        r@ == profile_name@.map_values(|c: char| safe_file_char(c)) + seq!['-'] + stamp@ + ".log"@,
{
    let mut out = sanitize_filename(profile_name);
    crate::text::push_char(&mut out, '-');
    push_str(&mut out, stamp);
    push_str(&mut out, ".log");
    out
}

// ─── Reconnection ────────────────────────────────────────────────────────────

pub open spec fn pow2(n: nat) -> nat
    decreases n,
{
    if n == 0 {
        1
    } else {
        2 * pow2((n - 1) as nat)
    }
}

/// Seconds before reconnection attempt `attempt`: 1, 2, 4, 8, 16, then 32
/// (the exponent stops at 5, the result at 60).
pub open spec fn backoff_secs(attempt: nat) -> nat {
    let e: nat = if attempt < 5 {
        attempt
    } else {
        5
    };
    if pow2(e) < 60 {
        pow2(e)
    } else {
        60
    }
}

/// Seconds to wait before reconnection attempt `attempt`.
pub fn backoff_delay_secs(attempt: u32) -> (r: u64)
    ensures
        r == backoff_secs(attempt as nat),
{
    let e: u32 = if attempt < 5 {
        attempt
    } else {
        5
    };
    let mut p: u64 = 1;
    let mut k: u32 = 0;
    while k < e
        invariant
            k <= e <= 5,
            p == pow2(k as nat),
            p <= 32,
        decreases e - k,
    {
        p = p * 2;
        k += 1;
        assert(pow2(k as nat) == 2 * pow2((k - 1) as nat));
        assert(p <= 32) by {
            assert(pow2(0) == 1);
            assert(pow2(1) == 2);
            assert(pow2(2) == 4);
            assert(pow2(3) == 8);
            assert(pow2(4) == 16);
            assert(pow2(5) == 32);
        }
    }
    if p < 60 {
        p
    } else {
        60
    }
}

// ─── Legacy algorithms ───────────────────────────────────────────────────────

/// The catalogue of legacy algorithms that can be offered to old servers,
/// as (wire name, category) pairs, in negotiation order.
pub open spec fn legacy_catalog_spec() -> Seq<(Seq<char>, Seq<char>)> {
    seq![
        ("aes256-cbc"@, "cipher"@),
        ("aes192-cbc"@, "cipher"@),
        ("aes128-cbc"@, "cipher"@),
        ("3des-cbc"@, "cipher"@),
        ("diffie-hellman-group-exchange-sha1"@, "kex"@),
        ("diffie-hellman-group14-sha1"@, "kex"@),
        ("diffie-hellman-group1-sha1"@, "kex"@),
        ("hmac-sha1"@, "mac"@),
        ("hmac-sha1-etm@openssh.com"@, "mac"@),
        ("ssh-rsa"@, "hostkey"@),
    ]
}

fn pair(a: &str, b: &str) -> (r: (String, String))
    ensures
        r.0@ == a@,
        r.1@ == b@,
{
    (string_of(&chars_of(a)), string_of(&chars_of(b)))
}

/// The legacy catalogue as (id, category) pairs, for the settings screen:
/// exactly what the negotiation can add.
pub fn legacy_catalog_info() -> (r: Vec<(String, String)>)
    ensures
        r@.len() == legacy_catalog_spec().len(),
        forall|i: int|
            0 <= i < r@.len() ==> (#[trigger] r@[i]).0@ == legacy_catalog_spec()[i].0 && r@[i].1@
                == legacy_catalog_spec()[i].1,
{
    let mut v: Vec<(String, String)> = Vec::new();
    v.push(pair("aes256-cbc", "cipher"));
    v.push(pair("aes192-cbc", "cipher"));
    v.push(pair("aes128-cbc", "cipher"));
    v.push(pair("3des-cbc", "cipher"));
    v.push(pair("diffie-hellman-group-exchange-sha1", "kex"));
    v.push(pair("diffie-hellman-group14-sha1", "kex"));
    v.push(pair("diffie-hellman-group1-sha1", "kex"));
    v.push(pair("hmac-sha1", "mac"));
    v.push(pair("hmac-sha1-etm@openssh.com", "mac"));
    v.push(pair("ssh-rsa", "hostkey"));
    v
}

/// Whether a catalogue id is offered: every id when there is no selection,
/// else only the selected ones.
pub open spec fn legacy_is_selected(selected: Option<Seq<Seq<char>>>, id: Seq<char>) -> bool {
    match selected {
        Some(list) => list.contains(id),
        None => true,
    }
}

fn is_selected(selected: Option<&Vec<String>>, id: &str) -> (r: bool)
    ensures
        r == legacy_is_selected(
            match selected {
                Some(l) => Some(l@.map_values(|s: String| s@)),
                None => None,
            },
            id@,
        ),
{
    match selected {
        None => true,
        Some(list) => {
            let ghost m = list@.map_values(|s: String| s@);
            let mut i: usize = 0;
            while i < list.len()
                invariant
                    i <= list@.len(),
                    m == list@.map_values(|s: String| s@),
                    selected == Some(list),
                    forall|k: int| 0 <= k < i ==> m[k] != id@,
                decreases list.len() - i,
            {
                if str_eq(list[i].as_str(), id) {
                    assert(m[i as int] == id@);
                    assert(m.contains(id@));
                    assert(list@.map_values(|s: String| s@).contains(id@));
                    return true;
                }
                i += 1;
            }
            false
        },
    }
}

/// The legacy ids split by a selection, in catalogue order: the offered ones
/// (added to the negotiation) and the others (removed from it, even from the
/// defaults).
pub fn legacy_selection(selected: Option<&Vec<String>>) -> (r: (Vec<String>, Vec<String>))
    ensures
        ({
            let sel = match selected {
                Some(l) => Some(l@.map_values(|s: String| s@)),
                None => None,
            };
            let ids = legacy_catalog_spec().map_values(|p: (Seq<char>, Seq<char>)| p.0);
            &&& r.0@.map_values(|s: String| s@) == ids.filter(|id: Seq<char>| legacy_is_selected(sel, id))
            &&& r.1@.map_values(|s: String| s@) == ids.filter(|id: Seq<char>| !legacy_is_selected(sel, id))
        }),
{
    let catalog = legacy_catalog_info();
    let ghost sel = match selected {
        Some(l) => Some(l@.map_values(|s: String| s@)),
        None => None,
    };
    let ghost ids = legacy_catalog_spec().map_values(|p: (Seq<char>, Seq<char>)| p.0);
    let mut inc: Vec<String> = Vec::new();
    let mut exc: Vec<String> = Vec::new();
    let mut i: usize = 0;
    assert(ids.take(0) =~= Seq::<Seq<char>>::empty());
    proof {
        reveal(Seq::filter);
        assert(ids.take(0).filter(|id: Seq<char>| legacy_is_selected(sel, id)) =~= Seq::<Seq<char>>::empty());
        assert(ids.take(0).filter(|id: Seq<char>| !legacy_is_selected(sel, id)) =~= Seq::<Seq<char>>::empty());
    }
    while i < catalog.len()
        invariant
            i <= catalog@.len(),
            catalog@.len() == ids.len(),
            forall|k: int| 0 <= k < catalog@.len() ==> (#[trigger] catalog@[k]).0@ == ids[k],
            inc@.map_values(|s: String| s@) == ids.take(i as int).filter(|id: Seq<char>| legacy_is_selected(sel, id)),
            exc@.map_values(|s: String| s@) == ids.take(i as int).filter(|id: Seq<char>| !legacy_is_selected(sel, id)),
            sel == (match selected {
                Some(l) => Some(l@.map_values(|s: String| s@)),
                None => None,
            }),
        decreases catalog.len() - i,
    {
        let id = catalog[i].0.clone();
        assert(id@ == ids[i as int]);
        let ghost pre = ids.take(i as int);
        let ghost t1 = ids.take(i + 1);
        assert(t1.drop_last() =~= pre);
        assert(t1.last() == ids[i as int]);
        proof {
            reveal(Seq::filter);
            assert(t1.filter(|id: Seq<char>| legacy_is_selected(sel, id)) == (if legacy_is_selected(sel, ids[i as int]) {
                pre.filter(|id: Seq<char>| legacy_is_selected(sel, id)).push(ids[i as int])
            } else {
                pre.filter(|id: Seq<char>| legacy_is_selected(sel, id))
            }));
            assert(t1.filter(|id: Seq<char>| !legacy_is_selected(sel, id)) == (if !legacy_is_selected(sel, ids[i as int]) {
                pre.filter(|id: Seq<char>| !legacy_is_selected(sel, id)).push(ids[i as int])
            } else {
                pre.filter(|id: Seq<char>| !legacy_is_selected(sel, id))
            }));
        }
        if is_selected(selected, id.as_str()) {
            let ghost before = inc@;
            inc.push(id);
            assert(inc@.map_values(|s: String| s@) =~= before.map_values(|s: String| s@).push(ids[i as int]));
        } else {
            let ghost before = exc@;
            exc.push(id);
            assert(exc@.map_values(|s: String| s@) =~= before.map_values(|s: String| s@).push(ids[i as int]));
        }
        i += 1;
    }
    assert(ids.take(i as int) =~= ids);
    (inc, exc)
}

// ─── X11 forwarding ──────────────────────────────────────────────────────────

/// Lower-case hex of a byte string.
pub open spec fn hex_of(b: Seq<u8>) -> Seq<char>
    decreases b.len(),
{
    if b.len() == 0 {
        seq![]
    } else {
        hex_of(b.drop_last()) + hex2(b.last())
    }
}

/// The MIT-MAGIC-COOKIE-1 cookie of a random nonce: the hex of the first 16
/// bytes of its SHA-256 digest.
pub fn x11_cookie_from_nonce(nonce: &[u8]) -> (r: String)
    ensures
        r@ == hex_of(sha256_of(nonce@).take(16)),
        r@.len() == 32,
{
    let digest = sha256(nonce);
    let mut out = String::new();
    let mut i: usize = 0;
    while i < 16
        invariant
            i <= 16,
            digest@ == sha256_of(nonce@),
            digest@.len() == 32,
            out@ == hex_of(digest@.take(i as int)),
            out@.len() == 2 * i,
        decreases 16 - i,
    {
        push_hex2(&mut out, digest[i]);
        assert(digest@.take(i + 1).drop_last() =~= digest@.take(i as int));
        assert(digest@.take(i + 1).last() == digest@[i as int]);
        i += 1;
    }
    out
}

// ─── Laws ────────────────────────────────────────────────────────────────────

/// The wire names of the legacy catalogue are all different: filtering by
/// name selects exactly one entry.
pub proof fn lemma_legacy_ids_unique()
    ensures
        forall|i: int, j: int|
            0 <= i < j < legacy_catalog_spec().len() ==> legacy_catalog_spec()[i].0
                != legacy_catalog_spec()[j].0,
{
    reveal_strlit("aes256-cbc");
    reveal_strlit("aes192-cbc");
    reveal_strlit("aes128-cbc");
    reveal_strlit("3des-cbc");
    reveal_strlit("diffie-hellman-group-exchange-sha1");
    reveal_strlit("diffie-hellman-group14-sha1");
    reveal_strlit("diffie-hellman-group1-sha1");
    reveal_strlit("hmac-sha1");
    reveal_strlit("hmac-sha1-etm@openssh.com");
    reveal_strlit("ssh-rsa");
    let c = legacy_catalog_spec();
    assert forall|i: int, j: int| 0 <= i < j < c.len() implies c[i].0 != c[j].0 by {
        if c[i].0 == c[j].0 {
            assert(c[i].0.len() == c[j].0.len());
            assert(c[i].0[3] == c[j].0[3]);
            assert(c[i].0[4] == c[j].0[4]);
        }
    }
}


// ─── Tunnels ─────────────────────────────────────────────────────────────────

/// Kind of an SSH tunnel.
#[derive(Debug, Clone, Copy, PartialEq, Eq, Structural)]
pub enum SshTunnelType {
    /// `-L`: a local listener forwarded to a remote host and port.
    Local,
    /// `-R`: a remote listener forwarded to a local host and port.
    Remote,
    /// `-D`: a local SOCKS5 proxy.
    Dynamic,
}

/// A tunnel as the user configured it.
#[derive(Debug, Clone, PartialEq, Eq)]
pub struct SshTunnelConfig {
    pub id: Option<String>,
    pub name: Option<String>,
    pub tunnel_type: SshTunnelType,
    pub bind_host: Option<String>,
    pub local_port: u16,
    pub remote_host: Option<String>,
    pub remote_port: Option<u16>,
}

/// A running tunnel, as reported to the front end.
#[derive(Debug, Clone, PartialEq, Eq)]
pub struct SshTunnelInfo {
    pub id: String,
    pub name: Option<String>,
    pub tunnel_type: SshTunnelType,
    pub bind_host: String,
    pub local_port: u16,
    pub remote_host: Option<String>,
    pub remote_port: Option<u16>,
    pub status: String,
    pub bytes_up: u64,
    pub bytes_down: u64,
}

/// What starting a tunnel does once its configuration is accepted.
#[derive(Debug, Clone, PartialEq, Eq)]
pub enum TunnelStart {
    /// Listen on `bind_host:local_port` (local and dynamic tunnels).
    Listen { id: String, bind_host: String },
    /// Ask the server to listen on `bind_host:remote_port` and forward to
    /// `local_host:local_port` (remote tunnels).
    Forward { id: String, bind_host: String, remote_port: u16, local_host: String },
}

pub open spec fn opt_str(o: Option<String>) -> Option<Seq<char>> {
    match o {
        Some(s) => Some(s@),
        None => None,
    }
}

/// A trimmed text when it is not blank, else the default.
pub open spec fn or_default(o: Option<Seq<char>>, d: Seq<char>) -> Seq<char> {
    match o {
        Some(s) => if trim(s).len() > 0 {
            trim(s)
        } else {
            d
        },
        None => d,
    }
}

pub open spec fn msg_tunnel_active(id: Seq<char>) -> Seq<char> {
    "El túnel "@ + id + " ya está activo"@
}

/// The checks of a tunnel configuration, in order, and what starting it
/// does: `Err` with the message of the first check that fails.
pub open spec fn tunnel_start_spec(
    config: SshTunnelConfig,
    fresh_id: Seq<char>,
    active: Seq<Seq<char>>,
) -> Result<(Seq<char>, Seq<char>, Option<(u16, Seq<char>)>), Seq<char>> {
    let id = match config.id {
        Some(i) => i@,
        None => fresh_id,
    };
    let bind = or_default(opt_str(config.bind_host), "127.0.0.1"@);
    if active.contains(id) {
        Err(msg_tunnel_active(id))
    } else {
        match config.tunnel_type {
            SshTunnelType::Remote => {
                let rp: u16 = match config.remote_port {
                    Some(p) => p,
                    None => 0,
                };
                if rp == 0 {
                    Err("El túnel remoto requiere puerto remoto"@)
                } else if config.local_port == 0 {
                    Err("El túnel remoto requiere puerto local de destino"@)
                } else {
                    Ok((id, bind, Some((rp, or_default(opt_str(config.remote_host), "127.0.0.1"@)))))
                }
            },
            _ => {
                if config.local_port == 0 {
                    Err("El puerto local debe ser mayor que 0"@)
                } else if config.tunnel_type == SshTunnelType::Local && (trim(
                    match opt_str(config.remote_host) {
                        Some(h) => h,
                        None => seq![],
                    },
                ).len() == 0 || match config.remote_port {
                    Some(p) => p == 0,
                    None => true,
                }) {
                    Err("El túnel local requiere host y puerto remotos"@)
                } else {
                    Ok((id, bind, None))
                }
            },
        }
    }
}

pub open spec fn tunnel_start_view(t: TunnelStart) -> (Seq<char>, Seq<char>, Option<(u16, Seq<char>)>) {
    match t {
        TunnelStart::Listen { id, bind_host } => (id@, bind_host@, None),
        TunnelStart::Forward { id, bind_host, remote_port, local_host } => (
            id@,
            bind_host@,
            Some((remote_port, local_host@)),
        ),
    }
}

fn clone_opt_string(o: &Option<String>) -> (r: Option<String>)
    ensures
        r == *o,
{
    match o {
        Some(s) => Some(s.clone()),
        None => None,
    }
}

fn or_default_exec(o: &Option<String>, d: &str) -> (r: String)
    ensures
        r@ == or_default(opt_str(*o), d@),
{
    match o {
        Some(s) => {
            let t = trim_chars(&chars_of(s.as_str()));
            if t.len() > 0 {
                string_of(&t)
            } else {
                string_of(&chars_of(d))
            }
        },
        None => string_of(&chars_of(d)),
    }
}

/// Checks a tunnel configuration before anything is opened. `fresh_id`
/// names the tunnel when the configuration has no id; `active` are the ids
/// of the tunnels already running.
pub fn plan_tunnel_start(config: &SshTunnelConfig, fresh_id: &str, active: &Vec<String>) -> (r: Result<TunnelStart, String>)
    ensures
        match r {
            Ok(t) => tunnel_start_spec(*config, fresh_id@, active@.map_values(|s: String| s@)) == Ok::<
                (Seq<char>, Seq<char>, Option<(u16, Seq<char>)>),
                Seq<char>,
            >(tunnel_start_view(t)),
            Err(e) => tunnel_start_spec(*config, fresh_id@, active@.map_values(|s: String| s@)) == Err::<
                (Seq<char>, Seq<char>, Option<(u16, Seq<char>)>),
                Seq<char>,
            >(e@),
        },
{
    let id: String = match &config.id {
        Some(i) => string_of(&chars_of(i.as_str())),
        None => string_of(&chars_of(fresh_id)),
    };
    let bind = or_default_exec(&config.bind_host, "127.0.0.1");
    let ghost act = active@.map_values(|s: String| s@);
    let mut i: usize = 0;
    while i < active.len()
        invariant
            i <= active@.len(),
            act == active@.map_values(|s: String| s@),
            forall|k: int| 0 <= k < i ==> act[k] != id@,
            id@ == (match config.id {
                Some(x) => x@,
                None => fresh_id@,
            }),
        decreases active.len() - i,
    {
        if str_eq(active[i].as_str(), id.as_str()) {
            assert(act[i as int] == id@);
            assert(act.contains(id@));
            assert(active@.map_values(|s: String| s@).contains(id@));
            let mut msg = String::new();
            push_str(&mut msg, "El túnel ");
            push_str(&mut msg, id.as_str());
            push_str(&mut msg, " ya está activo");
            return Err(msg);
        }
        i += 1;
    }
    assert(!act.contains(id@));
    match config.tunnel_type {
        SshTunnelType::Remote => {
            let rp: u16 = match config.remote_port {
                Some(p) => p,
                None => 0,
            };
            if rp == 0 {
                return Err("El túnel remoto requiere puerto remoto".to_string());
            }
            if config.local_port == 0 {
                return Err("El túnel remoto requiere puerto local de destino".to_string());
            }
            let local_host = or_default_exec(&config.remote_host, "127.0.0.1");
            Ok(TunnelStart::Forward { id, bind_host: bind, remote_port: rp, local_host })
        },
        _ => {
            if config.local_port == 0 {
                return Err("El puerto local debe ser mayor que 0".to_string());
            }
            if config.tunnel_type == SshTunnelType::Local {
                let host_blank = match &config.remote_host {
                    Some(h) => trim_chars(&chars_of(h.as_str())).len() == 0,
                    None => {
                        let e: Vec<char> = Vec::new();
                        let t = trim_chars(&e);
                        assert(e@ =~= Seq::<char>::empty());
                        assert(t@.len() == 0) by {
                            assert(t@ == trim(Seq::<char>::empty()));
                        }
                        true
                    },
                };
                let port_zero = match config.remote_port {
                    Some(p) => p == 0,
                    None => true,
                };
                if host_blank || port_zero {
                    return Err("El túnel local requiere host y puerto remotos".to_string());
                }
            }
            Ok(TunnelStart::Listen { id, bind_host: bind })
        },
    }
}

/// The report of a tunnel that started: its configuration, where it listens
/// and, for a remote tunnel, the port the server granted (0 means the one
/// asked for; a grant past 65535 keeps its low 16 bits, as a port does).
pub fn started_tunnel_info(config: &SshTunnelConfig, start: &TunnelStart, local_port: u16, granted_port: u32) -> (r: SshTunnelInfo)
    ensures
        r.name == config.name,
        r.status@ == "running"@,
        r.bytes_up == 0,
        r.bytes_down == 0,
        match start {
            TunnelStart::Listen { id, bind_host } => r.id@ == id@ && r.bind_host@ == bind_host@ && r.tunnel_type
                == config.tunnel_type && r.local_port == local_port && r.remote_host == config.remote_host
                && r.remote_port == config.remote_port,
            TunnelStart::Forward { id, bind_host, remote_port, local_host } => r.id@ == id@ && r.bind_host@
                == bind_host@ && r.tunnel_type == SshTunnelType::Remote && r.local_port == config.local_port
                && opt_str(r.remote_host) == Some(local_host@) && r.remote_port == Some(
                (if granted_port == 0 {
                    *remote_port as u32
                } else {
                    granted_port
                } % 65536) as u16),
        },
{
    match start {
        TunnelStart::Listen { id, bind_host } => SshTunnelInfo {
            id: string_of(&chars_of(id.as_str())),
            name: clone_opt_string(&config.name),
            tunnel_type: config.tunnel_type,
            bind_host: string_of(&chars_of(bind_host.as_str())),
            local_port,
            remote_host: clone_opt_string(&config.remote_host),
            remote_port: config.remote_port,
            status: string_of(&chars_of("running")),
            bytes_up: 0,
            bytes_down: 0,
        },
        TunnelStart::Forward { id, bind_host, remote_port, local_host } => {
            let p: u32 = if granted_port == 0 {
                *remote_port as u32
            } else {
                granted_port
            };
            SshTunnelInfo {
                id: string_of(&chars_of(id.as_str())),
                name: clone_opt_string(&config.name),
                tunnel_type: SshTunnelType::Remote,
                bind_host: string_of(&chars_of(bind_host.as_str())),
                local_port: config.local_port,
                remote_host: Some(string_of(&chars_of(local_host.as_str()))),
                remote_port: Some((p % 65536) as u16),
                status: string_of(&chars_of("running")),
                bytes_up: 0,
                bytes_down: 0,
            }
        },
    }
}


// ─── Automatic reconnection ──────────────────────────────────────────────────

/// How a session ended.
#[derive(Debug, Clone, Copy, PartialEq, Eq, Structural)]
pub enum SessionEnd {
    /// The user asked to disconnect.
    UserDisconnect,
    /// The server closed the channel or the network dropped.
    ServerClosed,
    /// Authentication or connection failed for good.
    Fatal,
}

/// What to do after a session ended.
#[derive(Debug, Clone, PartialEq, Eq)]
pub enum ReconnectStep {
    /// Done, nothing to report.
    Stop,
    /// Report the fatal error and stop.
    Fail,
    /// Report that the session closed and stop.
    Closed,
    /// Wait `delay_secs` and connect again; `message` tells the user.
    Retry { attempt: u32, delay_secs: u64, message: String },
}

/// Count of the automatic reconnections of a session.
#[derive(Debug, Clone, Copy, PartialEq, Eq, Structural)]
pub struct Reconnect {
    max_attempts: u32,
    attempt: u32,
}

pub open spec fn msg_reconnecting(delay: u64, attempt: u32, max: u32) -> Seq<char> {
    "Reconectando en "@ + crate::text::dec(delay as nat) + "s ("@ + crate::text::dec(attempt as nat) + seq!['/']
        + crate::text::dec(max as nat) + seq![')']
}

impl Reconnect {
    pub closed spec fn max_spec(&self) -> u32 {
        self.max_attempts
    }

    pub closed spec fn attempt_spec(&self) -> u32 {
        self.attempt
    }

    /// Attempts never exceed the maximum.
    pub open spec fn wf(&self) -> bool {
        self.attempt_spec() <= self.max_spec()
    }

    /// A session that may reconnect `auto_reconnect` times (none when unset).
    pub fn new(auto_reconnect: Option<u32>) -> (r: Self)
        ensures
            r.wf(),
            r.attempt_spec() == 0,
            r.max_spec() == match auto_reconnect {
                Some(n) => n,
                None => 0,
            },
    {
        let max_attempts = match auto_reconnect {
            Some(n) => n,
            None => 0,
        };
        Reconnect { max_attempts, attempt: 0 }
    }

    /// Attempts made so far.
    pub fn attempt(&self) -> (r: u32)
        ensures
            r == self.attempt_spec(),
    {
        self.attempt
    }

    /// The step after a session ended: a server close is retried, with the
    /// back-off of the attempt, while attempts are left.
    pub fn on_end(&mut self, end: SessionEnd) -> (r: ReconnectStep)
        requires
            old(self).wf(),
        ensures
            final(self).wf(),
            final(self).max_spec() == old(self).max_spec(),
            match end {
                SessionEnd::UserDisconnect => r == ReconnectStep::Stop && final(self).attempt_spec()
                    == old(self).attempt_spec(),
                SessionEnd::Fatal => r == ReconnectStep::Fail && final(self).attempt_spec()
                    == old(self).attempt_spec(),
                SessionEnd::ServerClosed => if old(self).attempt_spec() >= old(self).max_spec() {
                    r == ReconnectStep::Closed && final(self).attempt_spec() == old(self).attempt_spec()
                } else {
                    &&& final(self).attempt_spec() == old(self).attempt_spec() + 1
                    &&& r matches ReconnectStep::Retry { attempt, delay_secs, message } && attempt
                        == final(self).attempt_spec() && delay_secs == backoff_secs(attempt as nat)
                        && message@ == msg_reconnecting(delay_secs, attempt, old(self).max_spec())
                },
            },
            forall|rest: Seq<SessionEnd>|
                #![trigger retries_along(old(self).attempt_spec() as nat, old(self).max_spec() as nat, seq![end] + rest)]
                retries_along(old(self).attempt_spec() as nat, old(self).max_spec() as nat, seq![end] + rest)
                    == (if r is Retry { 1nat } else { 0nat }) + retries_along(
                    final(self).attempt_spec() as nat,
                    final(self).max_spec() as nat,
                    rest,
                ),
    {
        proof {
            assert forall|rest: Seq<SessionEnd>| #[trigger] (seq![end] + rest).drop_first() == rest by {
                assert((seq![end] + rest).drop_first() =~= rest);
            }
        }
        match end {
            SessionEnd::UserDisconnect => ReconnectStep::Stop,
            SessionEnd::Fatal => ReconnectStep::Fail,
            SessionEnd::ServerClosed => {
                if self.attempt >= self.max_attempts {
                    return ReconnectStep::Closed;
                }
                self.attempt = self.attempt + 1;
                let delay_secs = backoff_delay_secs(self.attempt);
                let mut message = String::new();
                push_str(&mut message, "Reconectando en ");
                crate::text::push_dec(&mut message, delay_secs);
                push_str(&mut message, "s (");
                crate::text::push_dec(&mut message, self.attempt as u64);
                crate::text::push_char(&mut message, '/');
                crate::text::push_dec(&mut message, self.max_attempts as u64);
                crate::text::push_char(&mut message, ')');
                assert(message@ =~= msg_reconnecting(delay_secs, self.attempt, self.max_attempts));
                ReconnectStep::Retry { attempt: self.attempt, delay_secs, message }
            },
        }
    }
}

/// Retries that `on_end` grants along a run of session ends, from `attempt`
/// of `max` (the transitions of its contract).
pub open spec fn retries_along(attempt: nat, max: nat, ends: Seq<SessionEnd>) -> nat
    decreases ends.len(),
{
    if ends.len() == 0 {
        0
    } else if ends[0] == SessionEnd::ServerClosed && attempt < max {
        1 + retries_along(attempt + 1, max, ends.drop_first())
    } else {
        retries_along(attempt, max, ends.drop_first())
    }
}

/// However the sessions end, a session with `max` reconnections allowed is
/// reconnected at most `max` times.
pub proof fn lemma_reconnects_are_bounded(max: nat, ends: Seq<SessionEnd>)
    ensures
        retries_along(0, max, ends) <= max,
{
    lemma_retries_left(0, max, ends);
}

proof fn lemma_retries_left(attempt: nat, max: nat, ends: Seq<SessionEnd>)
    requires
        attempt <= max,
    ensures
        retries_along(attempt, max, ends) <= max - attempt,
    decreases ends.len(),
{
    if ends.len() > 0 {
        if ends[0] == SessionEnd::ServerClosed && attempt < max {
            lemma_retries_left(attempt + 1, max, ends.drop_first());
        } else {
            lemma_retries_left(attempt, max, ends.drop_first());
        }
    }
}

// ─── Remote kill ─────────────────────────────────────────────────────────────

pub open spec fn kill_spec(timed_out: bool, status: Option<u32>, out: Seq<u8>, r: Result<(), String>) -> bool {
    if timed_out {
        r matches Err(e) && e@ == "El servidor no respondió al kill a tiempo"@
    } else if status == Some(0u32) {
        r is Ok
    } else {
        let text = trim(crate::text::lossy_utf8(out));
        if text.len() == 0 {
            r matches Err(e) && e@ == "kill terminó con estado "@ + match status {
                Some(s) => crate::text::dec(s as nat),
                None => "desconocido"@,
            }
        } else {
            r matches Err(e) && e@ == text
        }
    }
}

/// The outcome of a remote `kill`: done on exit status 0; otherwise the
/// command's own output (trimmed) or, when it said nothing, its status.
pub fn kill_outcome(timed_out: bool, status: Option<u32>, out: &[u8]) -> (r: Result<(), String>)
    ensures
        kill_spec(timed_out, status, out@, r),
{
    if timed_out {
        let mut m = String::new();
        push_str(&mut m, "El servidor no respondió al kill a tiempo");
        return Err(m);
    }
    if status == Some(0u32) {
        return Ok(());
    }
    let text = trim_chars(&chars_of(crate::text::lossy_string(out).as_str()));
    if text.len() == 0 {
        let mut m = String::new();
        push_str(&mut m, "kill terminó con estado ");
        match status {
            Some(s) => crate::text::push_dec(&mut m, s as u64),
            None => push_str(&mut m, "desconocido"),
        }
        Err(m)
    } else {
        Err(string_of(&text))
    }
}


/// The remote command that signals process `pid` (`TERM`, or `KILL` when
/// forced). PIDs 0 and 1 are refused: 0 would signal the kill's own process
/// group and 1 is init. Only literals and an integer reach the shell.
pub fn kill_command(pid: u32, force: bool) -> (r: Result<String, String>)
    ensures
        if pid < 2 {
            r matches Err(e) && e@ == "PID no válido: "@ + crate::text::dec(pid as nat)
        } else {
            r matches Ok(c) && c@ == "kill -"@ + (if force { "KILL"@ } else { "TERM"@ }) + seq![' ']
                + crate::text::dec(pid as nat)
        },
{
    let mut m = String::new();
    if pid < 2 {
        push_str(&mut m, "PID no válido: ");
        crate::text::push_dec(&mut m, pid as u64);
        return Err(m);
    }
    push_str(&mut m, "kill -");
    if force {
        push_str(&mut m, "KILL");
    } else {
        push_str(&mut m, "TERM");
    }
    crate::text::push_char(&mut m, ' ');
    crate::text::push_dec(&mut m, pid as u64);
    Ok(m)
}

// ─── Terminal output coalescing ──────────────────────────────────────────────

/// Bytes of terminal output gathered before they are handed on at once.
pub const SSH_DATA_FLUSH_THRESHOLD: usize = 32768;

/// Terminal output waiting to be handed to the front end: handed on when it
/// reaches [`SSH_DATA_FLUSH_THRESHOLD`] bytes, or when the stream goes quiet.
pub struct OutputBuffer {
    buf: Vec<u8>,
}

impl OutputBuffer {
    pub closed spec fn pending(&self) -> Seq<u8> {
        self.buf@
    }

    /// Nothing pending.
    pub fn new() -> (r: Self)
        ensures
            r.pending() == Seq::<u8>::empty(),
    {
        OutputBuffer { buf: Vec::new() }
    }

    /// Adds `data`; when the pending bytes reach the threshold they all come
    /// back, to be handed on, and nothing stays pending.
    pub fn push(&mut self, data: &[u8]) -> (r: Option<Vec<u8>>)
        requires
            old(self).pending().len() + data@.len() <= usize::MAX,
        ensures
            ({
                let all = old(self).pending() + data@;
                if all.len() >= SSH_DATA_FLUSH_THRESHOLD {
                    r matches Some(v) && v@ == all && final(self).pending() == Seq::<u8>::empty()
                } else {
                    r is None && final(self).pending() == all
                }
            }),
    {
        let mut i: usize = 0;
        let ghost start = self.buf@;
        while i < data.len()
            invariant
                i <= data@.len(),
                self.buf@ == start + data@.take(i as int),
                start.len() + data@.len() <= usize::MAX,
            decreases data.len() - i,
        {
            self.buf.push(data[i]);
            assert(data@.take(i + 1) =~= data@.take(i as int).push(data@[i as int]));
            i += 1;
        }
        assert(data@.take(i as int) =~= data@);
        if self.buf.len() >= SSH_DATA_FLUSH_THRESHOLD {
            let mut out: Vec<u8> = Vec::new();
            std::mem::swap(&mut out, &mut self.buf);
            Some(out)
        } else {
            None
        }
    }

    /// The stream went quiet: whatever is pending comes back (none when
    /// nothing is).
    pub fn flush(&mut self) -> (r: Option<Vec<u8>>)
        ensures
            final(self).pending() == Seq::<u8>::empty(),
            if old(self).pending().len() == 0 {
                r is None
            } else {
                r matches Some(v) && v@ == old(self).pending()
            },
    {
        if self.buf.len() == 0 {
            return None;
        }
        let mut out: Vec<u8> = Vec::new();
        std::mem::swap(&mut out, &mut self.buf);
        Some(out)
    }
}


// ─── First connection attempts ───────────────────────────────────────────────

/// Attempts of the first TCP/SSH connection before giving up.
pub const TCP_CONNECT_MAX_ATTEMPTS: u32 = 3;

/// What follows a failed connection attempt.
#[derive(Debug, Clone, PartialEq, Eq)]
pub enum ConnectRetry {
    /// The server's host key was refused: fatal at once, with the reason.
    HostKeyRejected(String),
    /// A transport failure with attempts left: wait and try again.
    Retry { delay_secs: u64, message: String },
    /// No attempts left: report `message` and stop.
    GiveUp { message: String },
}

pub open spec fn msg_retrying(attempt: u32, error: Seq<char>, delay: u64) -> Seq<char> {
    "Intento "@ + crate::text::dec(attempt as nat + 1) + " fallido ("@ + error + "). Reintentando en "@
        + crate::text::dec(delay as nat) + "s…"@
}

pub open spec fn msg_unreachable(addr: Seq<char>, error: Seq<char>) -> Seq<char> {
    "No se puede conectar a "@ + addr + ": "@ + error
}

/// After attempt `attempt` (from 0) to reach `addr` failed with `error`: a
/// refused host key is fatal; a transport error is retried after 1 s, then
/// 2 s, while attempts are left.
pub fn connect_retry(attempt: u32, addr: &str, error: &str, host_key_failure: Option<String>) -> (r: ConnectRetry)
    requires
        attempt < TCP_CONNECT_MAX_ATTEMPTS,
    ensures
        match host_key_failure {
            Some(reason) => r == ConnectRetry::HostKeyRejected(reason),
            None => if attempt + 1 < TCP_CONNECT_MAX_ATTEMPTS {
                r matches ConnectRetry::Retry { delay_secs, message } && delay_secs == (if attempt == 0 {
                    1u64
                } else {
                    2u64
                }) && message@ == msg_retrying(attempt, error@, delay_secs)
            } else {
                r matches ConnectRetry::GiveUp { message } && message@ == msg_unreachable(addr@, error@)
            },
        },
{
    if let Some(reason) = host_key_failure {
        return ConnectRetry::HostKeyRejected(reason);
    }
    if attempt + 1 < TCP_CONNECT_MAX_ATTEMPTS {
        let delay_secs: u64 = if attempt == 0 {
            1
        } else {
            2
        };
        let mut message = String::new();
        push_str(&mut message, "Intento ");
        crate::text::push_dec(&mut message, attempt as u64 + 1);
        push_str(&mut message, " fallido (");
        push_str(&mut message, error);
        push_str(&mut message, "). Reintentando en ");
        crate::text::push_dec(&mut message, delay_secs);
        push_str(&mut message, "s…");
        ConnectRetry::Retry { delay_secs, message }
    } else {
        let mut message = String::new();
        push_str(&mut message, "No se puede conectar a ");
        push_str(&mut message, addr);
        push_str(&mut message, ": ");
        push_str(&mut message, error);
        ConnectRetry::GiveUp { message }
    }
}

// ─── Terminal size and periodic timers ───────────────────────────────────────

/// SSH keepalive interval when the profile sets none, in seconds.
pub const DEFAULT_SSH_KEEPALIVE_SECS: u64 = 30;

/// Keepalives left unanswered before the connection is dropped.
pub const DEFAULT_SSH_KEEPALIVE_MAX: usize = 4;

/// The size a PTY is requested with: a pane not measured yet may report 0,
/// and a shell with 0 columns could format nothing, so either 0 gives 80×24.
pub fn pty_size(cols: u32, rows: u32) -> (r: (u32, u32))
    ensures
        r == (if cols == 0 || rows == 0 {
            (80u32, 24u32)
        } else {
            (cols, rows)
        }),
{
    if cols == 0 || rows == 0 {
        (80, 24)
    } else {
        (cols, rows)
    }
}

/// The period of a live keepalive or resource monitor, in seconds: `None`
/// and `0` both turn it off (`0`).
pub fn period_secs(secs: Option<u32>) -> (r: u32)
    ensures
        r == (match secs {
            Some(n) => n,
            None => 0u32,
        }),
{
    match secs {
        Some(n) if n > 0 => n,
        _ => 0,
    }
}

/// The transport keepalive interval of a connection, in seconds: the
/// profile's when it sets a positive one, the default otherwise.
pub fn keepalive_interval_secs(profile_secs: Option<u32>) -> (r: u64)
    ensures
        r == (match profile_secs {
            Some(n) => if n > 0 {
                n as u64
            } else {
                DEFAULT_SSH_KEEPALIVE_SECS
            },
            None => DEFAULT_SSH_KEEPALIVE_SECS,
        }),
{
    match profile_secs {
        Some(n) if n > 0 => n as u64,
        _ => DEFAULT_SSH_KEEPALIVE_SECS,
    }
}

} // verus!
