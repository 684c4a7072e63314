//! Which shell is being launched, and what its launch gains to start
//! integrated.
use vstd::prelude::*;
use crate::sftp::paths::{file_name_of, path_file_name};
use crate::text::{chars_of, eq_lit, strip_suffix, string_of, trim, trim_chars};

verus! {

/// Family of the shell, by the name of its executable.
#[derive(Debug, Clone, Copy, PartialEq, Eq, Structural)]
pub enum ShellKind {
    Bash,
    Zsh,
    Other,
}

/// The kind of a shell, by its executable's file name (as `Path::file_name`
/// gives it on this platform) without `.exe`.
pub open spec fn shell_kind_of(shell: Seq<char>) -> ShellKind {
    let name = match file_name_of(shell) {
        Some(n) => n,
        None => seq![],
    };
    let base = match strip_suffix(name, ".exe"@) {
        Some(b) => b,
        None => name,
    };
    if base == "bash"@ {
        ShellKind::Bash
    } else if base == "zsh"@ {
        ShellKind::Zsh
    } else {
        ShellKind::Other
    }
}

impl ShellKind {
    /// `/usr/bin/zsh` is `Zsh`; `bash` is `Bash`; `pwsh.exe` or `/bin/fish`
    /// are `Other`.
    pub fn detect(shell: &str) -> (r: Self)
        ensures
            r == shell_kind_of(shell@),
    {
        let name: Vec<char> = match path_file_name(shell) {
            Some(n) => chars_of(n.as_str()),
            None => Vec::new(),
        };
        proof {
            if file_name_of(shell@) is None {
                assert(name@ =~= Seq::<char>::empty());
            }
        }
        let exe = chars_of(".exe");
        let base = match crate::text::strip_suffix_chars(&name, &exe) {
            Some(b) => b,
            None => name,
        };
        if eq_lit(&base, "bash") {
            ShellKind::Bash
        } else if eq_lit(&base, "zsh") {
            ShellKind::Zsh
        } else {
            ShellKind::Other
        }
    }
}

/// What the launch of a shell gains to start integrated: arguments and
/// environment variables.
#[derive(Debug, Default, PartialEq, Eq)]
pub struct Launch {
    pub args: Vec<String>,
    pub env: Vec<(String, String)>,
}

/// The launch of an integrated shell, given where its startup files were
/// written: bash gets `--rcfile <bash_rc>`; zsh gets `ZDOTDIR=<zsh_dir>` and
/// `RUSTTY_USER_ZDOTDIR=<user_zdotdir>`; other shells get nothing (`None`).
pub fn launch_for(kind: ShellKind, bash_rc: &str, zsh_dir: &str, user_zdotdir: &str) -> (r: Option<Launch>)
    ensures
        match kind {
            ShellKind::Bash => r matches Some(l) && l.args@.len() == 2 && l.args@[0]@ == "--rcfile"@
                && l.args@[1]@ == bash_rc@ && l.env@.len() == 0,
            ShellKind::Zsh => r matches Some(l) && l.args@.len() == 0 && l.env@.len() == 2
                && l.env@[0].0@ == "ZDOTDIR"@ && l.env@[0].1@ == zsh_dir@ && l.env@[1].0@
                == "RUSTTY_USER_ZDOTDIR"@ && l.env@[1].1@ == user_zdotdir@,
            ShellKind::Other => r is None,
        },
{
    match kind {
        ShellKind::Bash => {
            let mut args: Vec<String> = Vec::new();
            args.push(string_of(&chars_of("--rcfile")));
            args.push(string_of(&chars_of(bash_rc)));
            Some(Launch { args, env: Vec::new() })
        },
        ShellKind::Zsh => {
            let mut env: Vec<(String, String)> = Vec::new();
            env.push((string_of(&chars_of("ZDOTDIR")), string_of(&chars_of(zsh_dir))));
            env.push(
                (string_of(&chars_of("RUSTTY_USER_ZDOTDIR")), string_of(&chars_of(user_zdotdir))),
            );
            Some(Launch { args: Vec::new(), env })
        },
        ShellKind::Other => None,
    }
}

/// The user's own `ZDOTDIR`: the environment's when it is not blank, else
/// the home directory, else empty.
pub fn user_zdotdir(env_zdotdir: Option<&str>, home: Option<&str>) -> (r: String)
    ensures
        r@ == (match env_zdotdir {
            Some(v) if trim(v@).len() > 0 => v@,
            _ => match home {
                Some(h) => h@,
                None => Seq::<char>::empty(),
            },
        }),
{
    if let Some(v) = env_zdotdir {
        let cs = chars_of(v);
        if trim_chars(&cs).len() > 0 {
            return string_of(&cs);
        }
    }
    match home {
        Some(h) => string_of(&chars_of(h)),
        None => String::new(),
    }
}

} // verus!
