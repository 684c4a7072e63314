//! The runs in progress and their cancel flags: a whole run, or one host of
//! it, can be aborted; the runner looks at the flags between steps.
use vstd::prelude::*;
use crate::text::{str_eq, string_of, chars_of};

verus! {

/// The flags of one run: the run's own and one per host (`profile_id`).
pub struct RunFlags {
    pub run_id: String,
    pub cancel_run: bool,
    pub hosts: Vec<(String, bool)>,
}

pub struct RunFlagsV {
    pub cancel_run: bool,
    pub hosts: Seq<(Seq<char>, bool)>,
}

pub open spec fn host_view(h: (String, bool)) -> (Seq<char>, bool) {
    (h.0@, h.1)
}

pub open spec fn flags_view(r: RunFlags) -> RunFlagsV {
    RunFlagsV { cancel_run: r.cancel_run, hosts: r.hosts@.map_values(|h: (String, bool)| host_view(h)) }
}

/// Position of the run with this id.
pub open spec fn run_index(s: Seq<RunFlags>, id: Seq<char>) -> Option<int>
    decreases s.len(),
{
    if s.len() == 0 {
        None
    } else if s.last().run_id@ == id {
        Some(s.len() - 1)
    } else {
        run_index(s.drop_last(), id)
    }
}

proof fn lemma_run_index(s: Seq<RunFlags>, id: Seq<char>)
    ensures
        match run_index(s, id) {
            Some(i) => 0 <= i < s.len() && s[i].run_id@ == id && forall|k: int| i < k < s.len() ==> s[k].run_id@ != id,
            None => forall|k: int| 0 <= k < s.len() ==> s[k].run_id@ != id,
        },
    decreases s.len(),
{
    if s.len() > 0 && s.last().run_id@ != id {
        let t = s.drop_last();
        lemma_run_index(t, id);
        assert forall|k: int| 0 <= k < t.len() implies #[trigger] s[k] == t[k] by {}
    }
}

/// A host of a run whose flag is raised.
pub open spec fn host_aborted(f: RunFlagsV, profile_id: Seq<char>) -> bool {
    exists|i: int| 0 <= i < f.hosts.len() && #[trigger] f.hosts[i] == (profile_id, true)
}

pub open spec fn run_opt(s: Seq<RunFlags>, id: Seq<char>) -> Option<RunFlagsV> {
    match run_index(s, id) {
        Some(i) => Some(flags_view(s[i])),
        None => None,
    }
}

proof fn lemma_update_run(s0: Seq<RunFlags>, j: int, x: RunFlags, id: Seq<char>)
    requires
        0 <= j < s0.len(),
        x.run_id@ == id,
        run_index(s0, id) == Some(j),
    ensures
        run_opt(s0.update(j, x), id) == Some(flags_view(x)),
        forall|other: Seq<char>| other != id ==> #[trigger] run_opt(s0.update(j, x), other) == run_opt(s0, other),
{
    let u = s0.update(j, x);
    lemma_run_index(s0, id);
    lemma_run_index(u, id);
    assert(u[j] == x);
    if let Some(b) = run_index(u, id) {
        if b != j {
            assert(s0[b].run_id@ == id);
        }
    }
    assert forall|other: Seq<char>| other != id implies #[trigger] run_opt(u, other) == run_opt(s0, other) by {
        lemma_run_index(s0, other);
        lemma_run_index(u, other);
        if let Some(a) = run_index(s0, other) {
            assert(a != j);
            assert(u[a] == s0[a]);
            if let Some(b) = run_index(u, other) {
                assert(b != j);
                assert(s0[b] == u[b]);
            }
        } else {
            if let Some(b) = run_index(u, other) {
                assert(b != j);
                assert(s0[b] == u[b]);
            }
        }
    }
}

proof fn lemma_push_run(s0: Seq<RunFlags>, x: RunFlags)
    ensures
        run_opt(s0.push(x), x.run_id@) == Some(flags_view(x)),
        forall|other: Seq<char>| other != x.run_id@ ==> #[trigger] run_opt(s0.push(x), other) == run_opt(s0, other),
{
    let p = s0.push(x);
    assert(p.drop_last() =~= s0);
    assert forall|other: Seq<char>| other != x.run_id@ implies #[trigger] run_opt(p, other) == run_opt(s0, other) by {
        lemma_run_index(s0, other);
        if let Some(a) = run_index(s0, other) {
            assert(p[a] == s0[a]);
        }
    }
}

/// The runs in progress.
pub struct RunRegistry {
    runs: Vec<RunFlags>,
}

impl RunRegistry {
    pub closed spec fn runs_spec(&self) -> Seq<RunFlags> {
        self.runs@
    }

    /// The flags of a run, if it is registered.
    pub open spec fn run(&self, id: Seq<char>) -> Option<RunFlagsV> {
        run_opt(self.runs_spec(), id)
    }

    /// No run registered.
    pub fn new() -> (r: Self)
        ensures
            forall|id: Seq<char>| #[trigger] r.run(id) is None,
    {
        RunRegistry { runs: Vec::new() }
    }

    fn find(&self, id: &str) -> (r: Option<usize>)
        ensures
            r matches Some(i) ==> run_index(self.runs_spec(), id@) == Some(i as int) && i < self.runs_spec().len(),
            r is None ==> run_index(self.runs_spec(), id@) is None,
    {
        proof {
            lemma_run_index(self.runs@, id@);
        }
        let mut n = self.runs.len();
        assert(self.runs@.take(n as int) =~= self.runs@);
        while n > 0
            invariant
                n <= self.runs@.len(),
                run_index(self.runs@, id@) == run_index(self.runs@.take(n as int), id@),
            decreases n,
        {
            let ghost t = self.runs@.take(n as int);
            if str_eq(self.runs[n - 1].run_id.as_str(), id) {
                return Some(n - 1);
            }
            assert(t.drop_last() =~= self.runs@.take(n - 1));
            n -= 1;
        }
        None
    }

    /// Registers a run with a cancel flag per host, all lowered, so that an
    /// abort can mark hosts that have not started yet. A run already
    /// registered under this id is replaced.
    pub fn register_run(&mut self, run_id: &str, profile_ids: &Vec<String>)
        ensures
            final(self).run(run_id@) == Some(
                RunFlagsV {
                    cancel_run: false,
                    hosts: profile_ids@.map_values(|p: String| (p@, false)),
                },
            ),
            forall|other: Seq<char>| other != run_id@ ==> #[trigger] final(self).run(other) == old(self).run(other),
    {
        let mut hosts: Vec<(String, bool)> = Vec::new();
        let mut i: usize = 0;
        while i < profile_ids.len()
            invariant
                i <= profile_ids@.len(),
                hosts@.map_values(|h: (String, bool)| host_view(h)) == profile_ids@.take(i as int).map_values(
                    |p: String| (p@, false),
                ),
            decreases profile_ids.len() - i,
        {
            let ghost before = hosts@;
            let c = profile_ids[i].clone();
            assert(c@ == profile_ids@[i as int]@);
            assert(profile_ids@.take(i + 1) =~= profile_ids@.take(i as int).push(profile_ids@[i as int]));
            hosts.push((c, false));
            assert(hosts@ =~= before.push((c, false)));
            assert(hosts@.map_values(|h: (String, bool)| host_view(h)) =~= before.map_values(
                |h: (String, bool)| host_view(h),
            ).push((c@, false)));
            assert(profile_ids@.take(i + 1).map_values(|p: String| (p@, false)) =~= profile_ids@.take(
                i as int,
            ).map_values(|p: String| (p@, false)).push((c@, false)));
            i += 1;
        }
        assert(profile_ids@.take(i as int) =~= profile_ids@);
        let entry = RunFlags { run_id: string_of(&chars_of(run_id)), cancel_run: false, hosts };
        let ghost s0 = self.runs@;
        match self.find(run_id) {
            Some(j) => {
                let ghost x = entry;
                self.runs.set(j, entry);
                proof {
                    lemma_update_run(s0, j as int, x, run_id@);
                }
            },
            None => {
                let ghost x = entry;
                self.runs.push(entry);
                proof {
                    lemma_push_run(s0, x);
                }
            },
        }
    }

    /// Aborts a whole run (`None`: its flag and every host's flag) or one
    /// host of it. An unknown run or host is ignored.
    pub fn abort(&mut self, run_id: &str, profile_id: Option<&str>)
        ensures
            match old(self).run(run_id@) {
                Some(f) => final(self).run(run_id@) == Some(
                    match profile_id {
                        Some(p) => RunFlagsV {
                            cancel_run: f.cancel_run,
                            hosts: f.hosts.map_values(
                                |h: (Seq<char>, bool)|
                                    if h.0 == p@ {
                                        (h.0, true)
                                    } else {
                                        h
                                    },
                            ),
                        },
                        None => RunFlagsV {
                            cancel_run: true,
                            hosts: f.hosts.map_values(|h: (Seq<char>, bool)| (h.0, true)),
                        },
                    },
                ),
                None => final(self).run(run_id@) is None,
            },
            forall|other: Seq<char>| other != run_id@ ==> #[trigger] final(self).run(other) == old(self).run(other),
    {
        let ghost s0 = self.runs@;
        match self.find(run_id) {
            None => {},
            Some(j) => {
                proof {
                    lemma_run_index(s0, run_id@);
                }
                let mut e = self.runs.remove(j);
                assert(e == s0[j as int]);
                let ghost hv0 = e.hosts@.map_values(|h: (String, bool)| host_view(h));
                let mut hosts: Vec<(String, bool)> = Vec::new();
                let mut k: usize = 0;
                while k < e.hosts.len()
                    invariant
                        k <= e.hosts@.len(),
                        hv0 == e.hosts@.map_values(|h: (String, bool)| host_view(h)),
                        hosts@.map_values(|h: (String, bool)| host_view(h)) == (match profile_id {
                            Some(p) => hv0.take(k as int).map_values(
                                |h: (Seq<char>, bool)|
                                    if h.0 == p@ {
                                        (h.0, true)
                                    } else {
                                        h
                                    },
                            ),
                            None => hv0.take(k as int).map_values(|h: (Seq<char>, bool)| (h.0, true)),
                        }),
                    decreases e.hosts.len() - k,
                {
                    let name = e.hosts[k].0.clone();
                    let flag = e.hosts[k].1;
                    let mark = match profile_id {
                        Some(p) => str_eq(name.as_str(), p),
                        None => true,
                    };
                    assert(hv0[k as int] == (name@, flag));
                    let ghost before = hosts@;
                    let ghost nv = name@;
                    hosts.push((name, flag || mark));
                    k += 1;
                    proof {
                        assert(hv0.take(k as int) =~= hv0.take(k - 1).push(hv0[k - 1]));
                        assert(hosts@.map_values(|h: (String, bool)| host_view(h)) =~= before.map_values(
                            |h: (String, bool)| host_view(h),
                        ).push((nv, flag || mark)));
                    }
                    assert(hosts@.map_values(|h: (String, bool)| host_view(h)) =~= (match profile_id {
                        Some(p) => hv0.take(k as int).map_values(
                            |h: (Seq<char>, bool)|
                                if h.0 == p@ {
                                    (h.0, true)
                                } else {
                                    h
                                },
                        ),
                        None => hv0.take(k as int).map_values(|h: (Seq<char>, bool)| (h.0, true)),
                    }));
                }
                assert(hv0.take(k as int) =~= hv0);
                let cancel = match profile_id {
                    Some(_) => e.cancel_run,
                    None => true,
                };
                e.hosts = hosts;
                e.cancel_run = cancel;
                let ghost x = e;
                self.runs.insert(j, e);
                proof {
                    assert(self.runs@ =~= s0.update(j as int, x));
                    lemma_update_run(s0, j as int, x, run_id@);
                }
            },
        }
    }

    /// Whether the whole run was aborted (false for an unknown run).
    pub fn run_canceled(&self, run_id: &str) -> (r: bool)
        ensures
            r == (self.run(run_id@) matches Some(f) && f.cancel_run),
    {
        match self.find(run_id) {
            Some(j) => self.runs[j].cancel_run,
            None => false,
        }
    }

    /// Whether a host of a run was aborted (false when unknown).
    pub fn host_canceled(&self, run_id: &str, profile_id: &str) -> (r: bool)
        ensures
            r == (match self.run(run_id@) {
                Some(f) => host_aborted(f, profile_id@),
                None => false,
            }),
    {
        match self.find(run_id) {
            Some(j) => {
                let e = &self.runs[j];
                let ghost hv = flags_view(*e).hosts;
                let mut k: usize = 0;
                while k < e.hosts.len()
                    invariant
                        k <= e.hosts@.len(),
                        hv == e.hosts@.map_values(|h: (String, bool)| host_view(h)),
                        self.run(run_id@) == Some(flags_view(*e)),
                        forall|i: int| 0 <= i < k ==> hv[i] != (profile_id@, true),
                    decreases e.hosts.len() - k,
                {
                    if e.hosts[k].1 && str_eq(e.hosts[k].0.as_str(), profile_id) {
                        assert(hv[k as int].0 == profile_id@ && hv[k as int].1);
                        assert(flags_view(*e).hosts[k as int].0 == profile_id@);
                        proof {
                            let f = flags_view(*e);
                            assert(f.hosts == hv);
                            assert(f.hosts[k as int] == (profile_id@, true));
                            assert(f.hosts.len() == e.hosts@.len());
                            assert(0 <= k < f.hosts.len());
                            assert(exists|i: int| 0 <= i < f.hosts.len() && #[trigger] f.hosts[i] == (profile_id@, true));
                            assert(host_aborted(f, profile_id@));
                            assert(self.run(run_id@) == Some(f));
                        }
                        return true;
                    }
                    k += 1;
                }
                false
            },
            None => false,
        }
    }

    /// Forgets a finished run.
    pub fn unregister(&mut self, run_id: &str)
        ensures
            final(self).run(run_id@) is None,
            forall|other: Seq<char>| other != run_id@ ==> #[trigger] final(self).run(other) == old(self).run(other),
    {
        let mut all: Vec<RunFlags> = Vec::new();
        std::mem::swap(&mut all, &mut self.runs);
        let ghost src = all@;
        let ghost id = run_id@;
        let mut kept: Vec<RunFlags> = Vec::new();
        for r in it: all.into_iter()
            invariant
                it.seq() == src,
                id == run_id@,
                kept@ == without_run(src.take(it.index() as int), id),
        {
            let ghost k = it.index();
            proof {
                assert(src.take(k + 1).drop_last() =~= src.take(k as int));
                assert(src.take(k + 1).last() == r);
            }
            if !str_eq(r.run_id.as_str(), run_id) {
                kept.push(r);
            }
        }
        proof {
            assert(src.take(src.len() as int) =~= src);
            lemma_without_run(src, id);
        }
        self.runs = kept;
    }
}

/// `s` without the runs registered under `id`, in order.
pub open spec fn without_run(s: Seq<RunFlags>, id: Seq<char>) -> Seq<RunFlags>
    decreases s.len(),
{
    if s.len() == 0 {
        seq![]
    } else if s.last().run_id@ == id {
        without_run(s.drop_last(), id)
    } else {
        without_run(s.drop_last(), id).push(s.last())
    }
}

/// Dropping the runs of `id` leaves none of it and every other run as it was.
proof fn lemma_without_run(s: Seq<RunFlags>, id: Seq<char>)
    ensures
        run_opt(without_run(s, id), id) is None,
        forall|other: Seq<char>| other != id ==> #[trigger] run_opt(without_run(s, id), other) == run_opt(s, other),
    decreases s.len(),
{
    if s.len() > 0 {
        let t = s.drop_last();
        let x = s.last();
        lemma_without_run(t, id);
        let w = without_run(t, id);
        if x.run_id@ != id {
            let wp = w.push(x);
            assert(wp.drop_last() =~= w);
            assert(wp.last() == x);
            assert forall|other: Seq<char>| other != id implies #[trigger] run_opt(without_run(s, id), other)
                == run_opt(s, other) by {
                assert(run_opt(w, other) == run_opt(t, other));
                lemma_run_index(t, other);
                lemma_run_index(w, other);
                if let Some(i) = run_index(t, other) {
                    assert(s[i] == t[i]);
                }
                if let Some(i) = run_index(w, other) {
                    assert(wp[i] == w[i]);
                }
            }
        } else {
            assert forall|other: Seq<char>| other != id implies #[trigger] run_opt(without_run(s, id), other)
                == run_opt(s, other) by {
                assert(run_opt(w, other) == run_opt(t, other));
                lemma_run_index(t, other);
                if let Some(i) = run_index(t, other) {
                    assert(s[i] == t[i]);
                }
            }
        }
    }
}

} // verus!
