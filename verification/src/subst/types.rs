//! Types of the template engine (`${...}`): the parsed pieces (`Marker`,
//! `InternalVar`), the context with the profile's internal data
//! (`SubstContext`) and the `Resolver` trait that abstracts how each
//! namespace is resolved.
use vstd::prelude::*;
use crate::text::{chars_of, chars_eq, dec, dec_string, eq_lit, is_ascii_digit, string_of};

verus! {

/// An internal variable derived from the profile or the moment of use.
#[derive(Debug, Clone, Copy, PartialEq, Eq, Structural)]
pub enum InternalVar {
    /// `${host}` → the profile's host.
    Host,
    /// `${port}` → the profile's port.
    Port,
    /// `${user}` → the profile's user name.
    User,
    /// `${profileName}` → the profile's name.
    ProfileName,
    /// `${workspace}` → the profile's workspace id.
    Workspace,
    /// `${date}` → local date `YYYY-MM-DD` when resolved.
    Date,
    /// `${time}` → local time `HH:MM:SS` when resolved.
    Time,
}

/// The name of an internal variable inside `${…}`.
pub open spec fn internal_name(v: InternalVar) -> Seq<char> {
    match v {
        InternalVar::Host => "host"@,
        InternalVar::Port => "port"@,
        InternalVar::User => "user"@,
        InternalVar::ProfileName => "profileName"@,
        InternalVar::Workspace => "workspace"@,
        InternalVar::Date => "date"@,
        InternalVar::Time => "time"@,
    }
}

/// The internal variable a marker body names, if any.
pub open spec fn internal_of(name: Seq<char>) -> Option<InternalVar> {
    if name == "host"@ {
        Some(InternalVar::Host)
    } else if name == "port"@ {
        Some(InternalVar::Port)
    } else if name == "user"@ {
        Some(InternalVar::User)
    } else if name == "profileName"@ {
        Some(InternalVar::ProfileName)
    } else if name == "workspace"@ {
        Some(InternalVar::Workspace)
    } else if name == "date"@ {
        Some(InternalVar::Date)
    } else if name == "time"@ {
        Some(InternalVar::Time)
    } else {
        None
    }
}

impl InternalVar {
    /// The internal variable of a marker body's name (`None` if it is not a
    /// known internal).
    pub fn from_name(name: &str) -> (r: Option<Self>)
        ensures
            r == internal_of(name@),
    {
        let s = chars_of(name);
        if eq_lit(&s, "host") {
            Some(InternalVar::Host)
        } else if eq_lit(&s, "port") {
            Some(InternalVar::Port)
        } else if eq_lit(&s, "user") {
            Some(InternalVar::User)
        } else if eq_lit(&s, "profileName") {
            Some(InternalVar::ProfileName)
        } else if eq_lit(&s, "workspace") {
            Some(InternalVar::Workspace)
        } else if eq_lit(&s, "date") {
            Some(InternalVar::Date)
        } else if eq_lit(&s, "time") {
            Some(InternalVar::Time)
        } else {
            None
        }
    }
}

/// A piece of a parsed template.
///
/// `Literal` covers plain text, `$${...}` escapes (already unescaped) and any
/// unknown or malformed marker, which is kept as it was.
#[derive(Debug, Clone, PartialEq, Eq)]
pub enum Marker {
    /// Literal text (escapes resolved and unknown markers included).
    Literal(String),
    /// Internal variable `${host}`, `${date}`, ….
    Internal(InternalVar),
    /// `${env:VAR}`.
    Env(String),
    /// `${var:name}`.
    Var(String),
    /// `${secret:name}`.
    Secret(String),
    /// `${master:name}`.
    Master(String),
    /// `${ask:label|op1|op2}`.
    Ask {
        /// Text shown to the user.
        label: String,
        /// Choices (empty = free text).
        options: Vec<String>,
    },
    /// `${cmd:command}` (reserved).
    Cmd(String),
}

pub enum MarkerV {
    Literal(Seq<char>),
    Internal(InternalVar),
    Env(Seq<char>),
    Var(Seq<char>),
    Secret(Seq<char>),
    Master(Seq<char>),
    Ask { label: Seq<char>, options: Seq<Seq<char>> },
    Cmd(Seq<char>),
}

pub open spec fn strings_view(v: Seq<String>) -> Seq<Seq<char>> {
    v.map_values(|s: String| s@)
}

impl View for Marker {
    type V = MarkerV;

    open spec fn view(&self) -> MarkerV {
        match self {
            Marker::Literal(t) => MarkerV::Literal(t@),
            Marker::Internal(v) => MarkerV::Internal(*v),
            Marker::Env(n) => MarkerV::Env(n@),
            Marker::Var(n) => MarkerV::Var(n@),
            Marker::Secret(n) => MarkerV::Secret(n@),
            Marker::Master(n) => MarkerV::Master(n@),
            Marker::Ask { label, options } => MarkerV::Ask { label: label@, options: strings_view(options@) },
            Marker::Cmd(c) => MarkerV::Cmd(c@),
        }
    }
}

pub open spec fn markers_view(v: Seq<Marker>) -> Seq<MarkerV> {
    v.map_values(|m: Marker| m@)
}

/// Internal data of the substitution, derived from a profile. `date` and
/// `time` are not stored: they are computed when resolving.
#[derive(Debug, Clone)]
pub struct SubstContext {
    pub host: String,
    pub port: u16,
    pub user: String,
    pub profile_name: String,
    pub workspace: String,
}

/// How each namespace of markers is resolved.
///
/// The engine asks this trait for each marker. A method giving `None` leaves
/// the marker **literal** in the result.
pub trait Resolver {
    /// Resolves an internal variable (host/port/user/...).
    fn internal(&self, var: InternalVar) -> Option<String>;

    /// Resolves `${env:name}`.
    fn env(&self, name: &str) -> Option<String>;

    /// Resolves `${var:name}`.
    fn var(&self, name: &str) -> Option<String>;

    /// Resolves `${secret:name}`.
    fn secret(&self, name: &str) -> Option<String>;

    /// Resolves `${master:name}`.
    fn master(&self, name: &str) -> Option<String>;

    /// Resolves `${ask:label|options}`.
    fn ask(&self, label: &str, options: &[String]) -> Option<String>;

    /// Resolves `${cmd:command}` (reserved: nothing by default).
    fn cmd(&self, command: &str) -> (r: Option<String>)
        default_ensures
            r is None,
    {
        None
    }
}

/// A date as `%Y-%m-%d` writes it: the year in at least four digits (with
/// a sign before it only outside 0 to 9999), then `-`, two digits of month,
/// `-` and two digits of day.
pub open spec fn date_shape(t: Seq<char>) -> bool {
    let n = t.len() as int;
    &&& n >= 10
    &&& (t[0] == '+' || t[0] == '-' || is_ascii_digit(t[0]))
    &&& forall|i: int| 1 <= i < n - 6 ==> is_ascii_digit(#[trigger] t[i])
    &&& t[n - 6] == '-' && is_ascii_digit(t[n - 5]) && is_ascii_digit(t[n - 4])
    &&& t[n - 3] == '-' && is_ascii_digit(t[n - 2]) && is_ascii_digit(t[n - 1])
}

/// A time as `%H:%M:%S` writes it: `HH:MM:SS`, two digits each.
pub open spec fn time_shape(t: Seq<char>) -> bool {
    &&& t.len() == 8
    &&& t[2] == ':' && t[5] == ':'
    &&& forall|i: int| 0 <= i < 8 && i != 2 && i != 5 ==> is_ascii_digit(#[trigger] t[i])
}

/// What holds of the text of a clock variable whatever the clock says: the
/// shape of a date for `${date}`, that of a time for `${time}`.
pub open spec fn clock_text(v: InternalVar, t: Seq<char>) -> bool {
    match v {
        InternalVar::Date => date_shape(t),
        InternalVar::Time => time_shape(t),
        _ => true,
    }
}

/// `chrono::Local::now()` rendered with `DelayedFormat` in the given
/// `strftime` format, one of the two this library uses (an invalid format
/// would make the rendering fail and `to_string` panic). The digits depend
/// on the clock and on the machine's time zone and are not stated; their
/// layout is: chrono writes `%Y` as four zero-padded digits for the years 0
/// to 9999 and with a sign and at least four digits otherwise, and `%m`,
/// `%d`, `%H`, `%M`, `%S` as two zero-padded digits each. The instant is
/// read and rendered here in one step; only its text leaves.
#[verifier::external_body]
fn local_now_text(fmt: &str) -> (r: String)
    requires
        fmt@ == "%Y-%m-%d"@ || fmt@ == "%H:%M:%S"@,
    ensures
        fmt@ == "%Y-%m-%d"@ ==> date_shape(r@),
        fmt@ == "%H:%M:%S"@ ==> time_shape(r@),
{
    chrono::Local::now().format(fmt).to_string()
}

/// The resolver of internals and `env`.
///
/// Internals come from a `SubstContext`; `env` from a snapshot of the
/// process environment handed in by the caller (an absent variable resolves
/// to the empty string). `var`/`secret`/`master`/`ask`/`cmd` give `None`,
/// so the engine leaves those markers literal.
pub struct DefaultResolver {
    ctx: SubstContext,
    env: Vec<(String, String)>,
}

/// The value of `name` in an environment snapshot (the first entry for it).
pub open spec fn env_lookup(env: Seq<(Seq<char>, Seq<char>)>, name: Seq<char>) -> Option<Seq<char>>
    decreases env.len(),
{
    if env.len() == 0 {
        None
    } else if env[0].0 == name {
        Some(env[0].1)
    } else {
        env_lookup(env.drop_first(), name)
    }
}

pub open spec fn env_view(env: Seq<(String, String)>) -> Seq<(Seq<char>, Seq<char>)> {
    env.map_values(|e: (String, String)| (e.0@, e.1@))
}

impl DefaultResolver {
    /// The resolver with the given internals and a snapshot of the process
    /// environment (`(name, value)` pairs, as `std::env::vars` gives them).
    pub fn new(ctx: SubstContext, env: Vec<(String, String)>) -> (r: Self)
        ensures
            r.context() == ctx,
            r.environment() == env_view(env@),
    {
        DefaultResolver { ctx, env }
    }

    pub closed spec fn context(&self) -> SubstContext {
        self.ctx
    }

    pub closed spec fn environment(&self) -> Seq<(Seq<char>, Seq<char>)> {
        env_view(self.env@)
    }

    fn lookup_env(&self, name: &str) -> (r: Option<String>)
        ensures
            match r {
                Some(v) => env_lookup(self.environment(), name@) == Some(v@),
                None => env_lookup(self.environment(), name@) is None,
            },
    {
        lookup_pairs(&self.env, name)
    }
}

/// The value of `name` in a table of `(name, value)` pairs (the first entry
/// for it).
pub fn lookup_pairs(table: &Vec<(String, String)>, name: &str) -> (r: Option<String>)
    ensures
        match r {
            Some(v) => env_lookup(env_view(table@), name@) == Some(v@),
            None => env_lookup(env_view(table@), name@) is None,
        },
{
    let key = chars_of(name);
    let ghost tv = env_view(table@);
    let mut i: usize = 0;
    assert(tv.skip(0) =~= tv);
    while i < table.len()
        invariant
            i <= table@.len(),
            key@ == name@,
            tv == env_view(table@),
            env_lookup(tv, name@) == env_lookup(tv.skip(i as int), name@),
        decreases table.len() - i,
    {
        let k = chars_of(table[i].0.as_str());
        let ghost t = tv.skip(i as int);
        proof {
            assert(t.len() > 0);
            assert(t.drop_first() =~= tv.skip(i + 1));
            assert(t[0] == (table@[i as int].0@, table@[i as int].1@));
        }
        if chars_eq(&k, &key) {
            assert(t[0].0 == name@);
            let v = table[i].1.clone();
            assert(v@ == t[0].1);
            return Some(v);
        }
        i += 1;
    }
    None
}

/// What the default resolver gives for an internal variable; `None` for
/// the date and the time, which depend on the clock.
pub open spec fn context_value(ctx: SubstContext, v: InternalVar) -> Option<Seq<char>> {
    match v {
        InternalVar::Host => Some(ctx.host@),
        InternalVar::Port => Some(dec(ctx.port as nat)),
        InternalVar::User => Some(ctx.user@),
        InternalVar::ProfileName => Some(ctx.profile_name@),
        InternalVar::Workspace => Some(ctx.workspace@),
        _ => None,
    }
}

impl Resolver for DefaultResolver {
    fn internal(&self, var: InternalVar) -> (r: Option<String>)
        ensures
            r is Some,
            context_value(self.context(), var) matches Some(v) ==> r->0@ == v,
            clock_text(var, r->0@),
    {
        let value = match var {
            InternalVar::Host => self.ctx.host.clone(),
            InternalVar::Port => dec_string(self.ctx.port as u64),
            InternalVar::User => self.ctx.user.clone(),
            InternalVar::ProfileName => self.ctx.profile_name.clone(),
            InternalVar::Workspace => self.ctx.workspace.clone(),
            InternalVar::Date => local_now_text("%Y-%m-%d"),
            InternalVar::Time => local_now_text("%H:%M:%S"),
        };
        Some(value)
    }

    /// An absent variable resolves to the empty string (not an error, not a
    /// literal).
    fn env(&self, name: &str) -> (r: Option<String>)
        ensures
            r is Some,
            r->0@ == (match env_lookup(self.environment(), name@) {
                Some(v) => v,
                None => Seq::<char>::empty(),
            }),
    {
        match self.lookup_env(name) {
            Some(v) => Some(v),
            None => Some(String::new()),
        }
    }

    fn var(&self, name: &str) -> (r: Option<String>)
        ensures
            r is None,
    {
        None
    }

    fn secret(&self, name: &str) -> (r: Option<String>)
        ensures
            r is None,
    {
        None
    }

    fn master(&self, name: &str) -> (r: Option<String>)
        ensures
            r is None,
    {
        None
    }

    fn ask(&self, label: &str, options: &[String]) -> (r: Option<String>)
        ensures
            r is None,
    {
        None
    }
}

} // verus!
