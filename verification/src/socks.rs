//! Server side of the SOCKS5 handshake of a dynamic (`-D`) tunnel, without
//! authentication and for `CONNECT` only (RFC 1928).
//!
//! The handshake is a sequence of exact reads. [`socks5_begin`] gives the
//! first stage; the caller reads [`SocksStage::want`] bytes and hands them to
//! [`socks5_step`], which says what to write and what to read next, or ends
//! the handshake with the target or a refusal.
use vstd::prelude::*;
use crate::text::{lossy_string, lossy_utf8, push_str};

verus! {

/// Protocol version spoken (and the only one accepted).
pub const SOCKS_VERSION: u8 = 5;

/// The one command served: `CONNECT`.
pub const CMD_CONNECT: u8 = 1;

/// Address type of an IPv4 address.
pub const ATYP_IPV4: u8 = 1;

/// Address type of a domain name.
pub const ATYP_DOMAIN: u8 = 3;

/// Address type of an IPv6 address.
pub const ATYP_IPV6: u8 = 4;

/// Kind of address the client sends.
#[derive(Debug, Clone, Copy, PartialEq, Eq, Structural)]
pub enum AddrKind {
    V4,
    Domain,
    V6,
}

/// The address a client asked to reach.
#[derive(Debug, Clone, PartialEq, Eq)]
pub enum SocksAddr {
    /// The four bytes of an IPv4 address.
    V4(Vec<u8>),
    /// A domain name, decoded as UTF-8 (invalid sequences replaced).
    Domain(String),
    /// The sixteen bytes of an IPv6 address.
    V6(Vec<u8>),
}

/// What the next read of the handshake is for.
#[derive(Debug, Clone, PartialEq, Eq)]
pub enum SocksStage {
    /// Version and number of methods.
    Greeting,
    /// The methods offered (that many bytes; their content is not looked at).
    Methods(u8),
    /// Version, command, reserved byte and address type.
    Request,
    /// Length of a domain name.
    DomainLen,
    /// The address itself: `len` bytes of the given kind.
    Address(AddrKind, u8),
    /// The port, big-endian, after the address.
    Port(SocksAddr),
}

/// What the server does after a read.
#[derive(Debug, Clone, PartialEq, Eq)]
pub enum SocksAction {
    /// Write `reply` (maybe empty), then read for `next`.
    Read { reply: Vec<u8>, next: SocksStage },
    /// Write `reply` (maybe empty) and end the handshake with `msg`.
    Fail { reply: Vec<u8>, msg: String },
    /// Write `reply`: the client wants `addr`:`port`.
    Connect { reply: Vec<u8>, addr: SocksAddr, port: u16 },
}

impl SocksStage {
    /// Bytes the stage reads.
    pub open spec fn want_spec(&self) -> nat {
        match self {
            SocksStage::Greeting => 2,
            SocksStage::Methods(n) => *n as nat,
            SocksStage::Request => 4,
            SocksStage::DomainLen => 1,
            SocksStage::Address(_, n) => *n as nat,
            SocksStage::Port(_) => 2,
        }
    }

    /// Reads left at most, this one included: each step moves forward.
    pub open spec fn rank(&self) -> nat {
        match self {
            SocksStage::Greeting => 6,
            SocksStage::Methods(_) => 5,
            SocksStage::Request => 4,
            SocksStage::DomainLen => 3,
            SocksStage::Address(_, _) => 2,
            SocksStage::Port(_) => 1,
        }
    }

    /// Bytes to read for this stage.
    pub fn want(&self) -> (r: usize)
        ensures
            r == self.want_spec(),
    {
        match self {
            SocksStage::Greeting => 2,
            SocksStage::Methods(n) => *n as usize,
            SocksStage::Request => 4,
            SocksStage::DomainLen => 1,
            SocksStage::Address(_, n) => *n as usize,
            SocksStage::Port(_) => 2,
        }
    }
}

/// Reply that accepts the greeting: version 5, no authentication.
pub open spec fn reply_no_auth() -> Seq<u8> {
    seq![5u8, 0u8]
}

/// Reply to a request: version 5, the status code, reserved, an IPv4
/// address type and a zero address and port.
pub open spec fn reply_status(code: u8) -> Seq<u8> {
    seq![5u8, code, 0u8, 1u8, 0u8, 0u8, 0u8, 0u8, 0u8, 0u8]
}

pub open spec fn msg_version() -> Seq<char> {
    "SOCKS no soportado"@
}

pub open spec fn msg_command() -> Seq<char> {
    "SOCKS solo soporta CONNECT"@
}

pub open spec fn msg_atyp() -> Seq<char> {
    "ATYP SOCKS inválido"@
}

/// What the server does on `input`, read for `stage`.
pub open spec fn step_ok(stage: SocksStage, input: Seq<u8>, r: SocksAction) -> bool {
    match stage {
        SocksStage::Greeting => if input[0] != SOCKS_VERSION {
            r matches SocksAction::Fail { reply, msg } && reply@.len() == 0 && msg@ == msg_version()
        } else {
            r matches SocksAction::Read { reply, next } && reply@.len() == 0 && next
                == SocksStage::Methods(input[1])
        },
        SocksStage::Methods(_) => r matches SocksAction::Read { reply, next } && reply@
            == reply_no_auth() && next == SocksStage::Request,
        SocksStage::Request => if input[0] != SOCKS_VERSION || input[1] != CMD_CONNECT {
            r matches SocksAction::Fail { reply, msg } && reply@ == reply_status(7) && msg@
                == msg_command()
        } else if input[3] == ATYP_IPV4 {
            r matches SocksAction::Read { reply, next } && reply@.len() == 0 && next
                == SocksStage::Address(AddrKind::V4, 4)
        } else if input[3] == ATYP_DOMAIN {
            r matches SocksAction::Read { reply, next } && reply@.len() == 0 && next
                == SocksStage::DomainLen
        } else if input[3] == ATYP_IPV6 {
            r matches SocksAction::Read { reply, next } && reply@.len() == 0 && next
                == SocksStage::Address(AddrKind::V6, 16)
        } else {
            r matches SocksAction::Fail { reply, msg } && reply@ == reply_status(8) && msg@
                == msg_atyp()
        },
        SocksStage::DomainLen => r matches SocksAction::Read { reply, next } && reply@.len() == 0
            && next == SocksStage::Address(AddrKind::Domain, input[0]),
        SocksStage::Address(kind, _) => r matches SocksAction::Read { reply, next } && reply@.len()
            == 0 && (next matches SocksStage::Port(a) && match kind {
            AddrKind::V4 => a matches SocksAddr::V4(b) && b@ == input,
            AddrKind::Domain => a matches SocksAddr::Domain(s) && s@ == lossy_utf8(input),
            AddrKind::V6 => a matches SocksAddr::V6(b) && b@ == input,
        }),
        SocksStage::Port(addr) => r matches SocksAction::Connect { reply, addr: a, port } && reply@
            == reply_status(0) && a == addr && port == input[0] as nat * 256 + input[1] as nat,
    }
}

/// The first stage: the greeting.
pub fn socks5_begin() -> (r: SocksStage)
    ensures
        r == SocksStage::Greeting,
{
    SocksStage::Greeting
}

fn status_reply(code: u8) -> (r: Vec<u8>)
    ensures
        r@ == reply_status(code),
{
    let r = vec![5u8, code, 0u8, 1u8, 0u8, 0u8, 0u8, 0u8, 0u8, 0u8];
    assert(r@ =~= reply_status(code));
    r
}

fn message(text: &str) -> (r: String)
    ensures
        r@ == text@,
{
    let mut m = String::new();
    push_str(&mut m, text);
    assert(m@ =~= text@);
    m
}

/// One step of the handshake: what to do with the bytes read for `stage`.
pub fn socks5_step(stage: SocksStage, input: &[u8]) -> (r: SocksAction)
    requires
        input@.len() == stage.want_spec(),
    ensures
        step_ok(stage, input@, r),
        r matches SocksAction::Read { next, .. } ==> next.rank() < stage.rank(),
{
    match stage {
        SocksStage::Greeting => {
            if input[0] != SOCKS_VERSION {
                SocksAction::Fail { reply: Vec::new(), msg: message("SOCKS no soportado") }
            } else {
                SocksAction::Read { reply: Vec::new(), next: SocksStage::Methods(input[1]) }
            }
        },
        SocksStage::Methods(_) => {
            let reply = vec![5u8, 0u8];
            assert(reply@ =~= reply_no_auth());
            SocksAction::Read { reply, next: SocksStage::Request }
        },
        SocksStage::Request => {
            if input[0] != SOCKS_VERSION || input[1] != CMD_CONNECT {
                SocksAction::Fail { reply: status_reply(7), msg: message("SOCKS solo soporta CONNECT") }
            } else if input[3] == ATYP_IPV4 {
                SocksAction::Read { reply: Vec::new(), next: SocksStage::Address(AddrKind::V4, 4) }
            } else if input[3] == ATYP_DOMAIN {
                SocksAction::Read { reply: Vec::new(), next: SocksStage::DomainLen }
            } else if input[3] == ATYP_IPV6 {
                SocksAction::Read { reply: Vec::new(), next: SocksStage::Address(AddrKind::V6, 16) }
            } else {
                SocksAction::Fail { reply: status_reply(8), msg: message("ATYP SOCKS inválido") }
            }
        },
        SocksStage::DomainLen => {
            SocksAction::Read { reply: Vec::new(), next: SocksStage::Address(AddrKind::Domain, input[0]) }
        },
        SocksStage::Address(kind, _) => {
            let addr = match kind {
                AddrKind::V4 => SocksAddr::V4(vstd::slice::slice_to_vec(input)),
                AddrKind::Domain => SocksAddr::Domain(lossy_string(input)),
                AddrKind::V6 => SocksAddr::V6(vstd::slice::slice_to_vec(input)),
            };
            SocksAction::Read { reply: Vec::new(), next: SocksStage::Port(addr) }
        },
        SocksStage::Port(addr) => {
            let port: u16 = (input[0] as u16) * 256 + input[1] as u16;
            SocksAction::Connect { reply: status_reply(0), addr, port }
        },
    }
}

} // verus!
