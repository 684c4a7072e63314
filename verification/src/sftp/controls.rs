//! Cancel and pause signals of the transfers, and the registry of open file
//! sessions. A cancel is consumed when the transfer sees it (one shot); a
//! pause stays until it is lifted.
use vstd::prelude::*;
use crate::text::str_eq;

verus! {

/// The ids held by a list of strings.
pub open spec fn id_set(v: Seq<String>) -> Set<Seq<char>> {
    Set::new(|x: Seq<char>| exists|i: int| 0 <= i < v.len() && v[i]@ == x)
}

/// Signals of the transfers of one session, by transfer id.
pub struct TransferControls {
    canceled: Vec<String>,
    paused: Vec<String>,
}

/// Abstract state of the controls: the canceled and the paused ids.
pub struct ControlsV {
    pub canceled: Set<Seq<char>>,
    pub paused: Set<Seq<char>>,
}

impl View for TransferControls {
    type V = ControlsV;

    closed spec fn view(&self) -> ControlsV {
        ControlsV { canceled: id_set(self.canceled@), paused: id_set(self.paused@) }
    }
}

proof fn lemma_id_set_push(v: Seq<String>, s: String)
    ensures
        id_set(v.push(s)) == id_set(v).insert(s@),
{
    let w = v.push(s);
    assert forall|x: Seq<char>| id_set(w).contains(x) == id_set(v).insert(s@).contains(x) by {
        if id_set(v).contains(x) {
            let i = choose|i: int| 0 <= i < v.len() && v[i]@ == x;
            assert(w[i]@ == x);
        }
        if x == s@ {
            assert(w[v.len() as int]@ == x);
        }
        if id_set(w).contains(x) {
            let i = choose|i: int| 0 <= i < w.len() && w[i]@ == x;
            if i < v.len() {
                assert(v[i]@ == x);
            }
        }
    }
    assert(id_set(w) =~= id_set(v).insert(s@));
}

proof fn lemma_id_set_empty()
    ensures
        id_set(Seq::<String>::empty()) == Set::<Seq<char>>::empty(),
{
    assert(id_set(Seq::<String>::empty()) =~= Set::<Seq<char>>::empty());
}

/// Whether `id` is in the list.
fn holds(v: &Vec<String>, id: &str) -> (r: bool)
    ensures
        r == id_set(v@).contains(id@),
{
    let mut i: usize = 0;
    while i < v.len()
        invariant
            i <= v@.len(),
            forall|k: int| 0 <= k < i ==> v@[k]@ != id@,
        decreases v.len() - i,
    {
        if str_eq(v[i].as_str(), id) {
            assert(v@[i as int]@ == id@);
            return true;
        }
        i += 1;
    }
    false
}

/// The list without any copy of `id`.
fn without(v: &Vec<String>, id: &str) -> (r: Vec<String>)
    ensures
        id_set(r@) == id_set(v@).remove(id@),
{
    let mut out: Vec<String> = Vec::new();
    let mut i: usize = 0;
    proof {
        lemma_id_set_empty();
    }
    while i < v.len()
        invariant
            i <= v@.len(),
            id_set(out@) == id_set(v@.take(i as int)).remove(id@),
        decreases v.len() - i,
    {
        let ghost before = out@;
        assert(v@.take(i + 1) =~= v@.take(i as int).push(v@[i as int]));
        proof {
            lemma_id_set_push(v@.take(i as int), v@[i as int]);
        }
        if !str_eq(v[i].as_str(), id) {
            let s = v[i].clone();
            out.push(s);
            proof {
                lemma_id_set_push(before, s);
                assert(id_set(out@) =~= id_set(v@.take(i + 1)).remove(id@));
            }
        } else {
            assert(id_set(out@) =~= id_set(v@.take(i + 1)).remove(id@));
        }
        i += 1;
    }
    assert(v@.take(i as int) =~= v@);
    out
}

impl TransferControls {
    /// No transfer canceled or paused.
    pub fn new() -> (r: Self)
        ensures
            r@.canceled == Set::<Seq<char>>::empty(),
            r@.paused == Set::<Seq<char>>::empty(),
    {
        proof {
            lemma_id_set_empty();
        }
        TransferControls { canceled: Vec::new(), paused: Vec::new() }
    }

    /// Consumes the cancel signal of a transfer: true once per `cancel`.
    pub fn take_cancel(&mut self, transfer_id: &str) -> (r: bool)
        ensures
            r == old(self)@.canceled.contains(transfer_id@),
            final(self)@.canceled == old(self)@.canceled.remove(transfer_id@),
            final(self)@.paused == old(self)@.paused,
    {
        let r = holds(&self.canceled, transfer_id);
        self.canceled = without(&self.canceled, transfer_id);
        r
    }

    /// Whether the transfer is paused.
    pub fn is_paused(&self, transfer_id: &str) -> (r: bool)
        ensures
            r == self@.paused.contains(transfer_id@),
    {
        holds(&self.paused, transfer_id)
    }

    /// Cancels a transfer; a cancel also lifts its pause, so that a paused
    /// loop leaves at once.
    pub fn cancel(&mut self, transfer_id: String)
        ensures
            final(self)@.paused == old(self)@.paused.remove(transfer_id@),
            final(self)@.canceled == old(self)@.canceled.insert(transfer_id@),
    {
        self.paused = without(&self.paused, transfer_id.as_str());
        let ghost before = self.canceled@;
        let ghost id = transfer_id;
        self.canceled.push(transfer_id);
        proof {
            lemma_id_set_push(before, id);
        }
    }

    /// Pauses a transfer.
    pub fn pause(&mut self, transfer_id: String)
        ensures
            final(self)@.paused == old(self)@.paused.insert(transfer_id@),
            final(self)@.canceled == old(self)@.canceled,
    {
        let ghost before = self.paused@;
        let ghost id = transfer_id;
        self.paused.push(transfer_id);
        proof {
            lemma_id_set_push(before, id);
        }
    }

    /// Lifts the pause of a transfer.
    pub fn resume(&mut self, transfer_id: &str)
        ensures
            final(self)@.paused == old(self)@.paused.remove(transfer_id@),
            final(self)@.canceled == old(self)@.canceled,
    {
        self.paused = without(&self.paused, transfer_id);
    }
}

/// What a folder transfer does between two files, given the signals of its
/// parent transfer id.
#[derive(Debug, Clone, Copy, PartialEq, Eq, Structural)]
pub enum GateStep {
    /// The folder transfer was canceled: report it and stop.
    Canceled,
    /// Paused: wait and ask again. `announce` when the pause is new.
    Paused { announce: bool },
    /// Go on with the next file. `resumed` when a pause was announced.
    Proceed { resumed: bool },
}

pub open spec fn gate_spec(c: ControlsV, transfer_id: Seq<char>, announced: bool) -> GateStep {
    if c.canceled.contains(transfer_id) {
        GateStep::Canceled
    } else if c.paused.contains(transfer_id) {
        GateStep::Paused { announce: !announced }
    } else {
        GateStep::Proceed { resumed: announced }
    }
}

impl TransferControls {
    /// One look at the signals between two files of a folder transfer;
    /// `announced` says whether a pause was already reported.
    pub fn gate_dir_transfer(&mut self, transfer_id: &str, announced: bool) -> (r: GateStep)
        ensures
            r == gate_spec(old(self)@, transfer_id@, announced),
            final(self)@.canceled == (if r is Canceled {
                old(self)@.canceled.remove(transfer_id@)
            } else {
                old(self)@.canceled
            }),
            final(self)@.paused == old(self)@.paused,
    {
        if self.take_cancel(transfer_id) {
            return GateStep::Canceled;
        }
        if self.is_paused(transfer_id) {
            GateStep::Paused { announce: !announced }
        } else {
            GateStep::Proceed { resumed: announced }
        }
    }
}

// ─── Registry of file sessions ───────────────────────────────────────────────

/// An open file session: its id, the handle that talks to its worker, and the
/// signals of its transfers.
pub struct SftpSession<H> {
    pub id: String,
    pub handle: H,
    pub controls: TransferControls,
}

/// Error of an operation on a session id that is not open.
pub open spec fn msg_no_session() -> Seq<char> {
    "Sesión de ficheros no encontrada"@
}

/// Position of the session with this id.
pub open spec fn session_index<H>(s: Seq<SftpSession<H>>, id: Seq<char>) -> Option<int>
    decreases s.len(),
{
    if s.len() == 0 {
        None
    } else if s.last().id@ == id {
        Some(s.len() - 1)
    } else {
        session_index(s.drop_last(), id)
    }
}

/// The ids of the open sessions.
pub open spec fn session_ids<H>(s: Seq<SftpSession<H>>) -> Seq<Seq<char>> {
    s.map_values(|x: SftpSession<H>| x.id@)
}

/// The open file sessions, each with one id.
pub struct SftpManager<H> {
    sessions: Vec<SftpSession<H>>,
}

impl<H> SftpManager<H> {
    pub closed spec fn sessions(&self) -> Seq<SftpSession<H>> {
        self.sessions@
    }

    /// The controls of the session with this id, if open.
    pub open spec fn controls_of(&self, id: Seq<char>) -> Option<ControlsV> {
        match session_index(self.sessions(), id) {
            Some(i) => Some(self.sessions()[i].controls@),
            None => None,
        }
    }

    /// No two sessions share an id.
    pub open spec fn wf(&self) -> bool {
        forall|i: int, j: int|
            0 <= i < j < self.sessions().len() ==> self.sessions()[i].id@ != self.sessions()[j].id@
    }
}

proof fn lemma_session_index<H>(s: Seq<SftpSession<H>>, id: Seq<char>)
    ensures
        match session_index(s, id) {
            Some(i) => 0 <= i < s.len() && s[i].id@ == id && forall|k: int|
                i < k < s.len() ==> s[k].id@ != id,
            None => forall|k: int| 0 <= k < s.len() ==> s[k].id@ != id,
        },
    decreases s.len(),
{
    if s.len() > 0 && s.last().id@ != id {
        let t = s.drop_last();
        lemma_session_index(t, id);
        assert forall|k: int| 0 <= k < t.len() implies #[trigger] s[k] == t[k] by {}
    }
}

/// Updating position `j` keeps every index when the id stays the same.
proof fn lemma_session_index_update<H>(s: Seq<SftpSession<H>>, j: int, x: SftpSession<H>, id: Seq<char>)
    requires
        0 <= j < s.len(),
        s[j].id@ == x.id@,
    ensures
        session_index(s.update(j, x), id) == session_index(s, id),
{
    let u = s.update(j, x);
    lemma_session_index(s, id);
    lemma_session_index(u, id);
    match session_index(s, id) {
        Some(i) => {
            assert(u[i].id@ == id);
            if let Some(i2) = session_index(u, id) {
                if i2 != i {
                    assert(s[i2].id@ == id);
                }
            }
        },
        None => {
            if let Some(i2) = session_index(u, id) {
                assert(s[i2].id@ == id);
            }
        },
    }
}

impl<H> SftpManager<H> {
    /// No session open.
    pub fn new() -> (r: Self)
        ensures
            r.sessions() == Seq::<SftpSession<H>>::empty(),
            r.wf(),
    {
        SftpManager { sessions: Vec::new() }
    }

    fn find(&self, id: &str) -> (r: Option<usize>)
        ensures
            r matches Some(i) ==> session_index(self.sessions(), id@) == Some(i as int) && i
                < self.sessions().len() && self.sessions()[i as int].id@ == id@,
            r is None ==> session_index(self.sessions(), id@) is None,
    {
        proof {
            lemma_session_index(self.sessions@, id@);
        }
        let mut n = self.sessions.len();
        assert(self.sessions@.take(n as int) =~= self.sessions@);
        while n > 0
            invariant
                n <= self.sessions@.len(),
                session_index(self.sessions@, id@) == session_index(self.sessions@.take(n as int), id@),
            decreases n,
        {
            let ghost t = self.sessions@.take(n as int);
            if str_eq(self.sessions[n - 1].id.as_str(), id) {
                return Some(n - 1);
            }
            assert(t.drop_last() =~= self.sessions@.take(n - 1));
            n -= 1;
        }
        None
    }

    /// Registers a session opened with `handle`, with fresh controls. A
    /// session already open with this id is replaced, and its handle handed
    /// back so that the caller can drop it.
    pub fn insert(&mut self, id: String, handle: H) -> (r: Option<H>)
        ensures
            ({
                let fresh = SftpSession { id, handle, controls: final(self).sessions().last().controls };
                match session_index(old(self).sessions(), id@) {
                    Some(i) => r == Some(old(self).sessions()[i].handle) && final(self).sessions()
                        == old(self).sessions().remove(i).push(fresh),
                    None => r is None && final(self).sessions() == old(self).sessions().push(fresh),
                }
            }),
            final(self).controls_of(id@) matches Some(c) && c.canceled == Set::<Seq<char>>::empty()
                && c.paused == Set::<Seq<char>>::empty(),
            old(self).wf() ==> final(self).wf(),
    {
        let old_handle = match self.find(id.as_str()) {
            Some(i) => {
                let s = self.sessions.remove(i);
                Some(s.handle)
            },
            None => None,
        };
        let ghost mid = self.sessions@;
        proof {
            lemma_session_index(old(self).sessions@, id@);
            if old(self).wf() {
                assert forall|k: int| 0 <= k < mid.len() implies mid[k].id@ != id@ by {
                    match session_index(old(self).sessions@, id@) {
                        Some(i) => {
                            let o = if k < i {
                                k
                            } else {
                                k + 1
                            };
                            assert(mid[k] == old(self).sessions@[o]);
                        },
                        None => {},
                    }
                }
            }
        }
        let controls = TransferControls::new();
        let ghost cv = controls;
        let ghost idv = id@;
        self.sessions.push(SftpSession { id, handle, controls });
        proof {
            let s = self.sessions@;
            assert(s.last().id@ == idv);
            assert(s.last().controls == cv);
            assert(s.drop_last() =~= mid);
            if old(self).wf() {
                assert forall|i: int, j: int| 0 <= i < j < s.len() implies s[i].id@ != s[j].id@ by {
                    if j < mid.len() {
                        match session_index(old(self).sessions@, idv) {
                            Some(x) => {
                                let oi = if i < x {
                                    i
                                } else {
                                    i + 1
                                };
                                let oj = if j < x {
                                    j
                                } else {
                                    j + 1
                                };
                                assert(s[i] == old(self).sessions@[oi]);
                                assert(s[j] == old(self).sessions@[oj]);
                            },
                            None => {},
                        }
                    }
                }
            }
        }
        old_handle
    }

    /// Cancels a transfer of a session (and lifts its pause).
    pub fn cancel_transfer(&mut self, session_id: &str, transfer_id: String) -> (r: Result<(), String>)
        ensures
            match old(self).controls_of(session_id@) {
                Some(c) => r is Ok && final(self).controls_of(session_id@) == Some(
                    ControlsV { canceled: c.canceled.insert(transfer_id@), paused: c.paused.remove(transfer_id@) },
                ),
                None => r matches Err(e) && e@ == msg_no_session() && final(self).sessions() == old(self).sessions(),
            },
            forall|other: Seq<char>| other != session_id@ ==> final(self).controls_of(other) == old(self).controls_of(other),
            session_ids(final(self).sessions()) == session_ids(old(self).sessions()),
            old(self).wf() ==> final(self).wf(),
    {
        match self.find(session_id) {
            Some(i) => {
                let ghost s0 = self.sessions@;
                let mut s = self.sessions.remove(i);
                s.controls.cancel(transfer_id);
                self.sessions.insert(i, s);
                proof {
                    assert(self.sessions@ =~= s0.update(i as int, s));
                    self.lemma_after_update(s0, i as int, s, session_id@);
                }
                Ok(())
            },
            None => {
                proof {
                    self.lemma_ids_same(self.sessions@);
                }
                Err("Sesión de ficheros no encontrada".to_string())
            },
        }
    }

    /// Pauses a transfer of a session.
    pub fn pause_transfer(&mut self, session_id: &str, transfer_id: String) -> (r: Result<(), String>)
        ensures
            match old(self).controls_of(session_id@) {
                Some(c) => r is Ok && final(self).controls_of(session_id@) == Some(
                    ControlsV { canceled: c.canceled, paused: c.paused.insert(transfer_id@) },
                ),
                None => r matches Err(e) && e@ == msg_no_session() && final(self).sessions() == old(self).sessions(),
            },
            forall|other: Seq<char>| other != session_id@ ==> final(self).controls_of(other) == old(self).controls_of(other),
            session_ids(final(self).sessions()) == session_ids(old(self).sessions()),
            old(self).wf() ==> final(self).wf(),
    {
        match self.find(session_id) {
            Some(i) => {
                let ghost s0 = self.sessions@;
                let mut s = self.sessions.remove(i);
                s.controls.pause(transfer_id);
                self.sessions.insert(i, s);
                proof {
                    assert(self.sessions@ =~= s0.update(i as int, s));
                    self.lemma_after_update(s0, i as int, s, session_id@);
                }
                Ok(())
            },
            None => {
                proof {
                    self.lemma_ids_same(self.sessions@);
                }
                Err("Sesión de ficheros no encontrada".to_string())
            },
        }
    }

    /// Lifts the pause of a transfer of a session.
    pub fn resume_transfer(&mut self, session_id: &str, transfer_id: String) -> (r: Result<(), String>)
        ensures
            match old(self).controls_of(session_id@) {
                Some(c) => r is Ok && final(self).controls_of(session_id@) == Some(
                    ControlsV { canceled: c.canceled, paused: c.paused.remove(transfer_id@) },
                ),
                None => r matches Err(e) && e@ == msg_no_session() && final(self).sessions() == old(self).sessions(),
            },
            forall|other: Seq<char>| other != session_id@ ==> final(self).controls_of(other) == old(self).controls_of(other),
            session_ids(final(self).sessions()) == session_ids(old(self).sessions()),
            old(self).wf() ==> final(self).wf(),
    {
        match self.find(session_id) {
            Some(i) => {
                let ghost s0 = self.sessions@;
                let mut s = self.sessions.remove(i);
                s.controls.resume(transfer_id.as_str());
                self.sessions.insert(i, s);
                proof {
                    assert(self.sessions@ =~= s0.update(i as int, s));
                    self.lemma_after_update(s0, i as int, s, session_id@);
                }
                Ok(())
            },
            None => {
                proof {
                    self.lemma_ids_same(self.sessions@);
                }
                Err("Sesión de ficheros no encontrada".to_string())
            },
        }
    }

    /// Consumes the cancel signal of a transfer of a session (false when the
    /// session is not open).
    pub fn take_cancel(&mut self, session_id: &str, transfer_id: &str) -> (r: bool)
        ensures
            match old(self).controls_of(session_id@) {
                Some(c) => r == c.canceled.contains(transfer_id@) && final(self).controls_of(session_id@)
                    == Some(ControlsV { canceled: c.canceled.remove(transfer_id@), paused: c.paused }),
                None => !r && final(self).sessions() == old(self).sessions(),
            },
            forall|other: Seq<char>| other != session_id@ ==> final(self).controls_of(other) == old(self).controls_of(other),
            session_ids(final(self).sessions()) == session_ids(old(self).sessions()),
            old(self).wf() ==> final(self).wf(),
    {
        match self.find(session_id) {
            Some(i) => {
                let ghost s0 = self.sessions@;
                let mut s = self.sessions.remove(i);
                let r = s.controls.take_cancel(transfer_id);
                self.sessions.insert(i, s);
                proof {
                    assert(self.sessions@ =~= s0.update(i as int, s));
                    self.lemma_after_update(s0, i as int, s, session_id@);
                }
                r
            },
            None => {
                proof {
                    self.lemma_ids_same(self.sessions@);
                }
                false
            },
        }
    }

    /// Whether a transfer of a session is paused (false when the session is
    /// not open).
    pub fn is_paused(&self, session_id: &str, transfer_id: &str) -> (r: bool)
        ensures
            r == (match self.controls_of(session_id@) {
                Some(c) => c.paused.contains(transfer_id@),
                None => false,
            }),
    {
        match self.find(session_id) {
            Some(i) => self.sessions[i].controls.is_paused(transfer_id),
            None => false,
        }
    }

    /// The check made between two files of a folder copy in a session; when
    /// the session is not open, the copy goes on.
    pub fn gate_dir_transfer(&mut self, session_id: &str, transfer_id: &str, announced: bool) -> (r: GateStep)
        ensures
            match old(self).controls_of(session_id@) {
                Some(c) => r == gate_spec(c, transfer_id@, announced) && final(self).controls_of(session_id@)
                    == Some(
                    ControlsV {
                        canceled: if r is Canceled {
                            c.canceled.remove(transfer_id@)
                        } else {
                            c.canceled
                        },
                        paused: c.paused,
                    },
                ),
                None => r == (GateStep::Proceed { resumed: announced }) && final(self).sessions()
                    == old(self).sessions(),
            },
            forall|other: Seq<char>| other != session_id@ ==> final(self).controls_of(other) == old(self).controls_of(other),
            session_ids(final(self).sessions()) == session_ids(old(self).sessions()),
            old(self).wf() ==> final(self).wf(),
    {
        match self.find(session_id) {
            Some(i) => {
                let ghost s0 = self.sessions@;
                let mut s = self.sessions.remove(i);
                let r = s.controls.gate_dir_transfer(transfer_id, announced);
                self.sessions.insert(i, s);
                proof {
                    assert(self.sessions@ =~= s0.update(i as int, s));
                    self.lemma_after_update(s0, i as int, s, session_id@);
                }
                r
            },
            None => {
                proof {
                    self.lemma_ids_same(self.sessions@);
                }
                GateStep::Proceed { resumed: announced }
            },
        }
    }

    /// Closes a session: its entry leaves the registry and its handle is
    /// handed back, so that the caller can tell the worker to stop.
    pub fn disconnect(&mut self, session_id: &str) -> (r: Option<H>)
        ensures
            match session_index(old(self).sessions(), session_id@) {
                Some(i) => r == Some(old(self).sessions()[i].handle) && final(self).sessions() == old(
                    self,
                ).sessions().remove(i),
                None => r is None && final(self).sessions() == old(self).sessions(),
            },
            old(self).wf() ==> final(self).wf() && final(self).controls_of(session_id@) is None,
    {
        proof {
            lemma_session_index(self.sessions@, session_id@);
        }
        match self.find(session_id) {
            Some(i) => {
                let ghost s0 = self.sessions@;
                let s = self.sessions.remove(i);
                proof {
                    let r = self.sessions@;
                    lemma_session_index(r, session_id@);
                    if old(self).wf() {
                        assert forall|k: int| 0 <= k < r.len() implies r[k].id@ != session_id@ by {
                            let o = if k < i {
                                k
                            } else {
                                k + 1
                            };
                            assert(r[k] == s0[o]);
                        }
                        assert forall|a: int, b: int| 0 <= a < b < r.len() implies r[a].id@ != r[b].id@ by {
                            let oa = if a < i {
                                a
                            } else {
                                a + 1
                            };
                            let ob = if b < i {
                                b
                            } else {
                                b + 1
                            };
                            assert(r[a] == s0[oa]);
                            assert(r[b] == s0[ob]);
                        }
                    }
                }
                Some(s.handle)
            },
            None => None,
        }
    }

    /// Closes every session and hands back their handles, in registry order.
    pub fn disconnect_all(&mut self) -> (r: Vec<H>)
        ensures
            final(self).sessions() == Seq::<SftpSession<H>>::empty(),
            final(self).wf(),
            r@ == old(self).sessions().map_values(|s: SftpSession<H>| s.handle),
    {
        let mut all: Vec<SftpSession<H>> = Vec::new();
        std::mem::swap(&mut all, &mut self.sessions);
        let ghost src = all@;
        let mut out: Vec<H> = Vec::new();
        for s in it: all.into_iter()
            invariant
                it.seq() == src,
                out@ == src.take(it.index() as int).map_values(|x: SftpSession<H>| x.handle),
                self.sessions@ == Seq::<SftpSession<H>>::empty(),
        {
            let ghost k = it.index();
            out.push(s.handle);
            proof {
                assert(src.take(k + 1) =~= src.take(k as int).push(src[k as int]));
                assert(out@ =~= src.take(k + 1).map_values(|x: SftpSession<H>| x.handle));
            }
        }
        proof {
            assert(src.take(src.len() as int) =~= src);
        }
        out
    }

    proof fn lemma_after_update(&self, s0: Seq<SftpSession<H>>, i: int, x: SftpSession<H>, id: Seq<char>)
        requires
            self.sessions@ == s0.update(i, x),
            0 <= i < s0.len(),
            session_index(s0, id) == Some(i),
            x.id@ == id,
        ensures
            session_index(self.sessions(), id) == Some(i),
            forall|other: Seq<char>|
                session_index(self.sessions(), other) == #[trigger] session_index(s0, other),
            session_ids(self.sessions()) == session_ids(s0),
            forall|other: Seq<char>|
                other != id ==> #[trigger] self.controls_of(other) == (match session_index(s0, other) {
                    Some(j) => Some(s0[j].controls@),
                    None => None::<ControlsV>,
                }),
            (forall|a: int, b: int| 0 <= a < b < s0.len() ==> s0[a].id@ != s0[b].id@) ==> self.wf(),
    {
        lemma_session_index(s0, id);
        assert forall|k: int| 0 <= k < s0.len() implies #[trigger] self.sessions()[k].id@ == s0[k].id@ by {}
        assert forall|other: Seq<char>|
            session_index(self.sessions(), other) == #[trigger] session_index(s0, other) by {
            lemma_session_index_update(s0, i, x, other);
        }
        assert forall|other: Seq<char>| other != id implies #[trigger] self.controls_of(other) == (
        match session_index(s0, other) {
            Some(j) => Some(s0[j].controls@),
            None => None::<ControlsV>,
        }) by {
            lemma_session_index_update(s0, i, x, other);
            lemma_session_index(s0, other);
        }
        assert(session_ids(self.sessions()) =~= session_ids(s0));
    }

    proof fn lemma_ids_same(&self, s0: Seq<SftpSession<H>>)
        requires
            self.sessions@ == s0,
        ensures
            session_ids(self.sessions()) == session_ids(s0),
            self.wf() == (forall|a: int, b: int| 0 <= a < b < s0.len() ==> s0[a].id@ != s0[b].id@),
    {
        assert(self.sessions() == s0);
    }
}

// ─── Laws ────────────────────────────────────────────────────────────────────

/// A cancel is seen exactly once: right after `cancel`, the first
/// `take_cancel` reports it and a second one does not.
pub proof fn lemma_cancel_is_one_shot(c: ControlsV, id: Seq<char>)
    ensures
        ({
            let after_cancel = ControlsV { canceled: c.canceled.insert(id), paused: c.paused.remove(id) };
            let after_take = ControlsV { canceled: after_cancel.canceled.remove(id), paused: after_cancel.paused };
            &&& after_cancel.canceled.contains(id)
            &&& !after_take.canceled.contains(id)
            &&& !after_cancel.paused.contains(id)
        }),
{
}

/// `resume` undoes `pause`: pausing a transfer that was not paused and then
/// resuming it leaves the controls as they were.
pub proof fn lemma_resume_undoes_pause(c: ControlsV, id: Seq<char>)
    requires
        !c.paused.contains(id),
    ensures
        c.paused.insert(id).remove(id) == c.paused,
{
    assert(c.paused.insert(id).remove(id) =~= c.paused);
}

} // verus!
