//! Registry of the open SSH sessions and of the extra shells opened over
//! them. Each entry holds the handle that talks to the session's worker and,
//! for an extra shell, the shell's id; a shell shares its session's handle.
use vstd::prelude::*;
use crate::text::{push_str, str_eq};

verus! {

/// An open session (or extra shell) of the registry.
pub struct SshSession<H> {
    pub id: String,
    pub handle: H,
    /// The shell's id when the entry is an extra shell over a session.
    pub shell: Option<String>,
}

/// What the worker is told when an entry closes.
#[derive(Debug, Clone, PartialEq, Eq)]
pub enum CloseCommand {
    /// Close only this extra shell; the connection stays.
    CloseShell(String),
    /// Close the whole connection.
    Disconnect,
}

/// The close command of an entry.
pub open spec fn close_of<H>(s: SshSession<H>) -> CloseCommand {
    match s.shell {
        Some(id) => CloseCommand::CloseShell(id),
        None => CloseCommand::Disconnect,
    }
}

/// Position of the entry with this id.
pub open spec fn entry_index<H>(s: Seq<SshSession<H>>, id: Seq<char>) -> Option<int>
    decreases s.len(),
{
    if s.len() == 0 {
        None
    } else if s.last().id@ == id {
        Some(s.len() - 1)
    } else {
        entry_index(s.drop_last(), id)
    }
}

proof fn lemma_entry_index<H>(s: Seq<SshSession<H>>, id: Seq<char>)
    ensures
        match entry_index(s, id) {
            Some(i) => 0 <= i < s.len() && s[i].id@ == id && forall|k: int| i < k < s.len() ==> s[k].id@ != id,
            None => forall|k: int| 0 <= k < s.len() ==> s[k].id@ != id,
        },
    decreases s.len(),
{
    if s.len() > 0 && s.last().id@ != id {
        let t = s.drop_last();
        lemma_entry_index(t, id);
        assert forall|k: int| 0 <= k < t.len() implies #[trigger] s[k] == t[k] by {}
    }
}

pub open spec fn msg_not_found(id: Seq<char>) -> Seq<char> {
    "Sesión SSH "@ + id + " no encontrada"@
}

/// The error of a command for a session that is not open.
pub fn not_found_message(id: &str) -> (r: String)
    ensures
        r@ == msg_not_found(id@),
{
    let mut m = String::new();
    push_str(&mut m, "Sesión SSH ");
    push_str(&mut m, id);
    push_str(&mut m, " no encontrada");
    m
}

/// The open sessions and shells, each id once.
pub struct SshSessions<H> {
    entries: Vec<SshSession<H>>,
}

impl<H> SshSessions<H> {
    pub closed spec fn entries(&self) -> Seq<SshSession<H>> {
        self.entries@
    }

    /// No two entries share an id.
    pub open spec fn wf(&self) -> bool {
        forall|i: int, j: int| 0 <= i < j < self.entries().len() ==> self.entries()[i].id@ != self.entries()[j].id@
    }

    /// The entry with this id, if open.
    pub open spec fn entry(&self, id: Seq<char>) -> Option<SshSession<H>> {
        match entry_index(self.entries(), id) {
            Some(i) => Some(self.entries()[i]),
            None => None,
        }
    }

    /// Nothing open.
    pub fn new() -> (r: Self)
        ensures
            r.entries() == Seq::<SshSession<H>>::empty(),
            r.wf(),
    {
        SshSessions { entries: Vec::new() }
    }

    fn find(&self, id: &str) -> (r: Option<usize>)
        ensures
            r matches Some(i) ==> entry_index(self.entries(), id@) == Some(i as int) && i < self.entries().len(),
            r is None ==> entry_index(self.entries(), id@) is None,
    {
        proof {
            lemma_entry_index(self.entries@, id@);
        }
        let mut n = self.entries.len();
        assert(self.entries@.take(n as int) =~= self.entries@);
        while n > 0
            invariant
                n <= self.entries@.len(),
                entry_index(self.entries@, id@) == entry_index(self.entries@.take(n as int), id@),
            decreases n,
        {
            let ghost t = self.entries@.take(n as int);
            if str_eq(self.entries[n - 1].id.as_str(), id) {
                return Some(n - 1);
            }
            assert(t.drop_last() =~= self.entries@.take(n - 1));
            n -= 1;
        }
        None
    }

    /// The entry with this id, to route a command to its worker.
    pub fn get(&self, id: &str) -> (r: Option<&SshSession<H>>)
        ensures
            match self.entry(id@) {
                Some(e) => r == Some(&e),
                None => r is None,
            },
    {
        match self.find(id) {
            Some(i) => Some(&self.entries[i]),
            None => None,
        }
    }

    fn remove_at(&mut self, i: usize) -> (r: SshSession<H>)
        requires
            i < old(self).entries().len(),
        ensures
            r == old(self).entries()[i as int],
            final(self).entries() == old(self).entries().remove(i as int),
            old(self).wf() ==> final(self).wf(),
    {
        let ghost s0 = self.entries@;
        let e = self.entries.remove(i);
        proof {
            let r = self.entries@;
            if old(self).wf() {
                assert forall|a: int, b: int| 0 <= a < b < r.len() implies r[a].id@ != r[b].id@ by {
                    let oa = if a < i {
                        a
                    } else {
                        a + 1
                    };
                    let ob = if b < i {
                        b
                    } else {
                        b + 1
                    };
                    assert(r[a] == s0[oa]);
                    assert(r[b] == s0[ob]);
                }
            }
        }
        e
    }

    /// Registers an entry. An entry already open with this id is replaced
    /// and handed back.
    pub fn insert(&mut self, id: String, handle: H, shell: Option<String>) -> (r: Option<SshSession<H>>)
        requires
            old(self).wf(),
        ensures
            final(self).wf(),
            final(self).entry(id@) == Some(SshSession { id, handle, shell }),
            r == old(self).entry(id@),
            forall|other: Seq<char>| other != id@ ==> #[trigger] final(self).entry(other) == old(self).entry(other),
    {
        proof {
            lemma_entry_index(self.entries@, id@);
        }
        let old_entry = match self.find(id.as_str()) {
            Some(i) => Some(self.remove_at(i)),
            None => None,
        };
        let ghost mid = self.entries@;
        proof {
            lemma_entry_index(mid, id@);
            match entry_index(old(self).entries@, id@) {
                Some(i) => {
                    assert forall|k: int| 0 <= k < mid.len() implies mid[k].id@ != id@ by {
                        let o = if k < i {
                            k
                        } else {
                            k + 1
                        };
                        assert(mid[k] == old(self).entries@[o]);
                    }
                },
                None => {},
            }
        }
        let ghost fresh = SshSession { id, handle, shell };
        let ghost idv = id@;
        self.entries.push(SshSession { id, handle, shell });
        proof {
            let s = self.entries@;
            assert(s.drop_last() =~= mid);
            assert(s.last() == fresh);
            assert forall|a: int, b: int| 0 <= a < b < s.len() implies s[a].id@ != s[b].id@ by {
                if b == s.len() - 1 {
                    assert(s[a] == mid[a]);
                } else {
                    assert(s[a] == mid[a] && s[b] == mid[b]);
                }
            }
            assert forall|other: Seq<char>| other != idv implies #[trigger] self.entry(other) == old(self).entry(other) by {
                lemma_entry_index(old(self).entries@, other);
                lemma_entry_index(mid, other);
                lemma_entry_index(s, other);
                assert(entry_index(s, other) == entry_index(mid, other));
                match entry_index(old(self).entries@, idv) {
                    Some(i) => {
                        match entry_index(old(self).entries@, other) {
                            Some(j) => {
                                let e = if j < i {
                                    j
                                } else {
                                    j - 1
                                };
                                assert(mid[e] == old(self).entries@[j]);
                                if let Some(j2) = entry_index(mid, other) {
                                    if j2 != e {
                                        let o2 = if j2 < i {
                                            j2
                                        } else {
                                            j2 + 1
                                        };
                                        assert(mid[j2] == old(self).entries@[o2]);
                                    }
                                }
                            },
                            None => {
                                if let Some(j2) = entry_index(mid, other) {
                                    let o2 = if j2 < i {
                                        j2
                                    } else {
                                        j2 + 1
                                    };
                                    assert(mid[j2] == old(self).entries@[o2]);
                                }
                            },
                        }
                    },
                    None => {
                        assert(mid == old(self).entries@);
                    },
                }
            }
        }
        old_entry
    }

    /// Closes an entry: it leaves the registry, and its handle comes back
    /// with the command that closes it (only the shell for an extra shell,
    /// the connection otherwise). An id not open is ignored.
    pub fn disconnect(&mut self, id: &str) -> (r: Option<(H, CloseCommand)>)
        requires
            old(self).wf(),
        ensures
            final(self).wf(),
            final(self).entry(id@) is None,
            match old(self).entry(id@) {
                Some(e) => r matches Some((h, c)) && h == e.handle && c == close_of(e),
                None => r is None,
            },
            forall|other: Seq<char>| other != id@ ==> #[trigger] final(self).entry(other) == old(self).entry(other),
    {
        proof {
            lemma_entry_index(self.entries@, id@);
        }
        match self.find(id) {
            Some(i) => {
                let ghost s0 = self.entries@;
                let e = self.remove_at(i);
                proof {
                    let r = self.entries@;
                    lemma_entry_index(r, id@);
                    assert forall|k: int| 0 <= k < r.len() implies r[k].id@ != id@ by {
                        let o = if k < i {
                            k
                        } else {
                            k + 1
                        };
                        assert(r[k] == s0[o]);
                    }
                    assert forall|other: Seq<char>| other != id@ implies #[trigger] self.entry(other) == old(self).entry(other) by {
                        lemma_entry_index(s0, other);
                        lemma_entry_index(r, other);
                        match entry_index(s0, other) {
                            Some(j) => {
                                let e2 = if j < i {
                                    j
                                } else {
                                    j - 1
                                };
                                assert(r[e2] == s0[j]);
                                if let Some(j2) = entry_index(r, other) {
                                    if j2 != e2 {
                                        let o2 = if j2 < i {
                                            j2
                                        } else {
                                            j2 + 1
                                        };
                                        assert(r[j2] == s0[o2]);
                                    }
                                }
                            },
                            None => {
                                if let Some(j2) = entry_index(r, other) {
                                    let o2 = if j2 < i {
                                        j2
                                    } else {
                                        j2 + 1
                                    };
                                    assert(r[j2] == s0[o2]);
                                }
                            },
                        }
                    }
                }
                let cmd = match e.shell {
                    Some(s) => CloseCommand::CloseShell(s),
                    None => CloseCommand::Disconnect,
                };
                Some((e.handle, cmd))
            },
            None => None,
        }
    }

    /// Closes everything: every handle comes back with its close command, in
    /// registry order.
    pub fn disconnect_all(&mut self) -> (r: Vec<(H, CloseCommand)>)
        ensures
            final(self).entries() == Seq::<SshSession<H>>::empty(),
            final(self).wf(),
            r@ == old(self).entries().map_values(|e: SshSession<H>| (e.handle, close_of(e))),
    {
        let mut all: Vec<SshSession<H>> = Vec::new();
        std::mem::swap(&mut all, &mut self.entries);
        let ghost src = all@;
        let mut out: Vec<(H, CloseCommand)> = Vec::new();
        for e in it: all.into_iter()
            invariant
                it.seq() == src,
                out@ == src.take(it.index() as int).map_values(|x: SshSession<H>| (x.handle, close_of(x))),
                self.entries@ == Seq::<SshSession<H>>::empty(),
        {
            let ghost k = it.index();
            let ghost ev = e;
            let cmd = match e.shell {
                Some(s) => CloseCommand::CloseShell(s),
                None => CloseCommand::Disconnect,
            };
            out.push((e.handle, cmd));
            proof {
                assert(src.take(k + 1) =~= src.take(k as int).push(src[k as int]));
                assert(out@ =~= src.take(k + 1).map_values(|x: SshSession<H>| (x.handle, close_of(x))));
            }
        }
        proof {
            assert(src.take(src.len() as int) =~= src);
        }
        out
    }
}


/// Opening an id that was not open and closing it again leaves the registry
/// reading as before, for every id.
pub proof fn lemma_disconnect_undoes_insert<H>(before: SshSessions<H>, mid: SshSessions<H>, after: SshSessions<H>, id: Seq<char>)
    requires
        before.entry(id) is None,
        forall|other: Seq<char>| other != id ==> #[trigger] mid.entry(other) == before.entry(other),
        after.entry(id) is None,
        forall|other: Seq<char>| other != id ==> #[trigger] after.entry(other) == mid.entry(other),
    ensures
        forall|k: Seq<char>| #[trigger] after.entry(k) == before.entry(k),
{
    assert forall|k: Seq<char>| #[trigger] after.entry(k) == before.entry(k) by {
        if k != id {
            assert(mid.entry(k) == before.entry(k));
        }
    }
}

} // verus!
