//! Bookkeeping of the saved scripts (by id) and of the run history. The
//! files on disk and the cache lock belong to the caller; this decides what
//! the lists become.
use vstd::prelude::*;
use crate::scripts::types::{RunRecord, Script, MAX_RUN_HISTORY, MAX_STEPS};
use crate::text::{dec, push_dec, push_str, str_eq};

verus! {

// ─── Saved scripts ───────────────────────────────────────────────────────────

/// Index of the first script with this id.
pub open spec fn script_index(s: Seq<Script>, id: Seq<char>) -> Option<int>
    decreases s.len(),
{
    if s.len() == 0 {
        None
    } else if s[0].id@ == id {
        Some(0)
    } else {
        match script_index(s.drop_first(), id) {
            Some(i) => Some(i + 1),
            None => None,
        }
    }
}

/// Upsert by id: replaces the script with the same id, or appends it.
pub open spec fn upsert_spec(s: Seq<Script>, x: Script) -> Seq<Script> {
    match script_index(s, x.id@) {
        Some(i) => s.update(i, x),
        None => s.push(x),
    }
}

/// Removal by id: every script with that id goes, the others keep their order.
pub open spec fn delete_spec(s: Seq<Script>, id: Seq<char>) -> Seq<Script> {
    s.filter(|x: Script| x.id@ != id)
}

pub open spec fn unique_script_ids(s: Seq<Script>) -> bool {
    forall|i: int, j: int| 0 <= i < j < s.len() ==> s[i].id@ != s[j].id@
}

pub open spec fn msg_too_many_steps() -> Seq<char> {
    "El script supera el máximo de "@ + dec(MAX_STEPS as nat) + " pasos"@
}

/// A script may hold at most `MAX_STEPS` steps.
pub fn check_steps(script: &Script) -> (r: Result<(), String>)
    ensures
        match r {
            Ok(()) => script.steps@.len() <= MAX_STEPS,
            Err(e) => script.steps@.len() > MAX_STEPS && e@ == msg_too_many_steps(),
        },
{
    if script.steps.len() > MAX_STEPS {
        let mut msg = String::new();
        push_str(&mut msg, "El script supera el máximo de ");
        push_dec(&mut msg, MAX_STEPS as u64);
        push_str(&mut msg, " pasos");
        assert(msg@ =~= msg_too_many_steps());
        return Err(msg);
    }
    Ok(())
}

/// Position of the script with this id, if any.
pub fn find_script(scripts: &Vec<Script>, id: &str) -> (r: Option<usize>)
    ensures
        match r {
            Some(i) => script_index(scripts@, id@) == Some(i as int),
            None => script_index(scripts@, id@) is None,
        },
{
    let mut i: usize = 0;
    assert(scripts@.skip(0) =~= scripts@);
    while i < scripts.len()
        invariant
            i <= scripts@.len(),
            script_index(scripts@, id@) == (match script_index(scripts@.skip(i as int), id@) {
                Some(k) => Some(k + i),
                None => None::<int>,
            }),
        decreases scripts.len() - i,
    {
        let ghost t = scripts@.skip(i as int);
        assert(t[0] == scripts@[i as int]);
        assert(t.drop_first() =~= scripts@.skip(i + 1));
        if str_eq(scripts[i].id.as_str(), id) {
            return Some(i);
        }
        i += 1;
    }
    None
}

/// Replaces the script with the same id, or appends it.
pub fn upsert_script(scripts: &mut Vec<Script>, script: Script)
    ensures
        final(scripts)@ == upsert_spec(old(scripts)@, script),
{
    proof {
        lemma_script_index(scripts@, script.id@);
    }
    match find_script(scripts, script.id.as_str()) {
        Some(i) => {
            scripts.set(i, script);
        },
        None => {
            scripts.push(script);
        },
    }
}

/// Removes every script with this id.
pub fn delete_script(scripts: &mut Vec<Script>, id: &str)
    ensures
        final(scripts)@ == delete_spec(old(scripts)@, id@),
{
    let mut kept: Vec<Script> = Vec::new();
    let ghost src = scripts@;
    let mut all: Vec<Script> = Vec::new();
    std::mem::swap(&mut all, scripts);
    let ghost mut k: int = 0;
    assert(src.take(0) =~= Seq::<Script>::empty());
    assert(delete_spec(src.take(0), id@) =~= Seq::<Script>::empty()) by {
        reveal(Seq::filter);
    }
    for x in it: all.into_iter()
        invariant
            it.seq() == src,
            k == it.index(),
            kept@ == delete_spec(src.take(k), id@),
    {
        let keep = !str_eq(x.id.as_str(), id);
        let ghost before = kept@;
        proof {
            assert(src.take(k + 1).drop_last() =~= src.take(k));
            assert(src.take(k + 1).last() == x);
            assert(keep == (x.id@ != id@));
            reveal(Seq::filter);
            let pred = |y: Script| y.id@ != id@;
            let t1 = src.take(k + 1);
            assert(t1.len() > 0);
            assert(t1.filter(pred) == (if pred(t1.last()) {
                t1.drop_last().filter(pred).push(t1.last())
            } else {
                t1.drop_last().filter(pred)
            }));
            assert(delete_spec(src.take(k + 1), id@) == (if keep {
                delete_spec(src.take(k), id@).push(x)
            } else {
                delete_spec(src.take(k), id@)
            }));
        }
        if keep {
            kept.push(x);
        }
        proof {
            k = k + 1;
        }
    }
    assert(src.take(k) =~= src);
    *scripts = kept;
}

// ─── Laws of the saved scripts ───────────────────────────────────────────────

proof fn lemma_script_index(s: Seq<Script>, id: Seq<char>)
    ensures
        match script_index(s, id) {
            Some(i) => 0 <= i < s.len() && s[i].id@ == id && forall|j: int| 0 <= j < i ==> s[j].id@ != id,
            None => forall|j: int| 0 <= j < s.len() ==> s[j].id@ != id,
        },
    decreases s.len(),
{
    if s.len() > 0 {
        lemma_script_index(s.drop_first(), id);
        assert forall|j: int| 1 <= j < s.len() implies s[j] == s.drop_first()[j - 1] by {}
    }
}

/// Reading back a saved script gives what was saved, and the ids stay
/// unique, so no upsert ever duplicates a script.
pub proof fn lemma_upsert_then_find(s: Seq<Script>, x: Script)
    requires
        unique_script_ids(s),
    ensures
        unique_script_ids(upsert_spec(s, x)),
        script_index(upsert_spec(s, x), x.id@) matches Some(i) && upsert_spec(s, x)[i] == x,
{
    lemma_script_index(s, x.id@);
    let u = upsert_spec(s, x);
    lemma_script_index(u, x.id@);
    match script_index(s, x.id@) {
        Some(i) => {
            assert forall|a: int, b: int| 0 <= a < b < u.len() implies u[a].id@ != u[b].id@ by {
                if a != i && b != i {
                    assert(u[a] == s[a] && u[b] == s[b]);
                }
            }
            assert(u[i] == x);
            match script_index(u, x.id@) {
                Some(k) => {
                    if k < i {
                        assert(u[k] == s[k]);
                    }
                    if k > i {
                        assert(u[i].id@ == x.id@);
                    }
                },
                None => {
                    assert(u[i].id@ == x.id@);
                },
            }
        },
        None => {
            assert forall|a: int, b: int| 0 <= a < b < u.len() implies u[a].id@ != u[b].id@ by {
                if b < s.len() {
                    assert(u[a] == s[a] && u[b] == s[b]);
                }
            }
            let n = s.len() as int;
            assert(u[n] == x);
            match script_index(u, x.id@) {
                Some(k) => {
                    if k < n {
                        assert(u[k] == s[k]);
                    }
                },
                None => {
                    assert(u[n].id@ == x.id@);
                },
            }
        },
    }
}

/// After a delete no script with that id is left.
pub proof fn lemma_delete_then_find(s: Seq<Script>, id: Seq<char>)
    ensures
        script_index(delete_spec(s, id), id) is None,
{
    let d = delete_spec(s, id);
    lemma_script_index(d, id);
    s.filter_lemma(|x: Script| x.id@ != id);
}

// ─── Run history ─────────────────────────────────────────────────────────────

pub open spec fn run_ids(s: Seq<RunRecord>) -> Seq<Seq<char>> {
    s.map_values(|r: RunRecord| r.id@)
}

/// Keeps the first record of each id, in order.
pub open spec fn first_of_each_id(s: Seq<RunRecord>) -> Seq<RunRecord>
    decreases s.len(),
{
    if s.len() == 0 {
        seq![]
    } else {
        let d = first_of_each_id(s.drop_last());
        if run_ids(s.drop_last()).contains(s.last().id@) {
            d
        } else {
            d.push(s.last())
        }
    }
}

/// The history after saving `record`: it goes first, an older record with
/// the same id is dropped, and only the `MAX_RUN_HISTORY` most recent stay.
pub open spec fn history_spec(runs: Seq<RunRecord>, record: RunRecord) -> Seq<RunRecord> {
    let d = first_of_each_id(seq![record] + runs);
    if d.len() > MAX_RUN_HISTORY {
        d.take(MAX_RUN_HISTORY as int)
    } else {
        d
    }
}

proof fn lemma_first_of_each_id_ids(s: Seq<RunRecord>)
    ensures
        forall|id: Seq<char>| #[trigger] run_ids(first_of_each_id(s)).contains(id) <==> run_ids(s).contains(id),
        forall|i: int, j: int|
            0 <= i < j < first_of_each_id(s).len() ==> first_of_each_id(s)[i].id@ != first_of_each_id(s)[j].id@,
    decreases s.len(),
{
    if s.len() > 0 {
        let t = s.drop_last();
        lemma_first_of_each_id_ids(t);
        let d = first_of_each_id(t);
        let x = s.last();
        assert forall|id: Seq<char>| run_ids(s).contains(id) <==> (run_ids(t).contains(id) || id == x.id@) by {
            if run_ids(s).contains(id) {
                let k = choose|k: int| 0 <= k < run_ids(s).len() && run_ids(s)[k] == id;
                if k < t.len() {
                    assert(run_ids(t)[k] == id);
                }
            }
            if run_ids(t).contains(id) {
                let k = choose|k: int| 0 <= k < run_ids(t).len() && run_ids(t)[k] == id;
                assert(run_ids(s)[k] == id);
            }
            if id == x.id@ {
                assert(run_ids(s)[s.len() - 1] == id);
            }
        }
        if !run_ids(t).contains(x.id@) {
            let e = d.push(x);
            assert forall|id: Seq<char>| run_ids(e).contains(id) <==> (run_ids(d).contains(id) || id == x.id@) by {
                if run_ids(e).contains(id) {
                    let k = choose|k: int| 0 <= k < run_ids(e).len() && run_ids(e)[k] == id;
                    if k < d.len() {
                        assert(run_ids(d)[k] == id);
                    }
                }
                if run_ids(d).contains(id) {
                    let k = choose|k: int| 0 <= k < run_ids(d).len() && run_ids(d)[k] == id;
                    assert(run_ids(e)[k] == id);
                }
                if id == x.id@ {
                    assert(run_ids(e)[e.len() - 1] == id);
                }
            }
            assert forall|i: int, j: int| 0 <= i < j < e.len() implies e[i].id@ != e[j].id@ by {
                if j == e.len() - 1 {
                    assert(run_ids(d)[i] == d[i].id@);
                    assert(run_ids(d).contains(d[i].id@));
                }
            }
        }
    }
}

proof fn lemma_first_of_each_id_single(x: RunRecord)
    ensures
        first_of_each_id(seq![x]) == seq![x],
{
    assert(seq![x].drop_last() =~= Seq::<RunRecord>::empty());
    assert(run_ids(Seq::<RunRecord>::empty()) =~= Seq::<Seq<char>>::empty());
    assert(!run_ids(seq![x].drop_last()).contains(x.id@));
    assert(first_of_each_id(Seq::<RunRecord>::empty()) == Seq::<RunRecord>::empty());
    assert(first_of_each_id(seq![x]) =~= Seq::<RunRecord>::empty().push(x));
    assert(Seq::<RunRecord>::empty().push(x) =~= seq![x]);
}

proof fn lemma_first_of_each_id_head(x: RunRecord, s: Seq<RunRecord>)
    ensures
        first_of_each_id(seq![x] + s).len() >= 1,
        first_of_each_id(seq![x] + s)[0] == x,
    decreases s.len(),
{
    if s.len() == 0 {
        assert(seq![x] + s =~= seq![x]);
        lemma_first_of_each_id_single(x);
    } else {
        lemma_first_of_each_id_head(x, s.drop_last());
        let a = seq![x] + s;
        assert(a.drop_last() =~= seq![x] + s.drop_last());
        let d = first_of_each_id(a.drop_last());
        assert(d.len() >= 1 && d[0] == x);
        assert(first_of_each_id(a) == d || first_of_each_id(a) == d.push(a.last()));
    }
}

/// The saved history holds at most `MAX_RUN_HISTORY` records, the record
/// just saved comes first, and no id appears twice.
pub proof fn lemma_history_bounded_and_unique(runs: Seq<RunRecord>, record: RunRecord)
    ensures
        history_spec(runs, record).len() <= MAX_RUN_HISTORY,
        history_spec(runs, record)[0] == record,
        forall|i: int, j: int|
            0 <= i < j < history_spec(runs, record).len() ==> history_spec(runs, record)[i].id@
                != history_spec(runs, record)[j].id@,
{
    lemma_first_of_each_id_ids(seq![record] + runs);
    lemma_first_of_each_id_head(record, runs);
}

/// Saves `record` in the history: it goes first, an older record with the
/// same id is dropped, and the list is cut to `MAX_RUN_HISTORY`.
pub fn history_insert(runs: Vec<RunRecord>, record: RunRecord) -> (r: Vec<RunRecord>)
    ensures
        r@ == history_spec(runs@, record),
{
    let ghost all = seq![record] + runs@;
    let mut kept: Vec<RunRecord> = Vec::new();
    let ghost rec0 = record;
    kept.push(record);
    proof {
        assert(all.take(1) =~= seq![rec0]);
        lemma_first_of_each_id_single(rec0);
        assert(kept@ =~= seq![rec0]);
    }
    let ghost mut k: int = 0;
    for x in it: runs.into_iter()
        invariant
            it.seq() == runs@,
            k == it.index(),
            all == seq![rec0] + runs@,
            kept@ == first_of_each_id(all.take(k + 1)),
    {
        let ghost pre = all.take(k + 1);
        proof {
            assert(all.take(k + 2).drop_last() =~= pre);
            assert(all.take(k + 2).last() == x);
            lemma_first_of_each_id_ids(pre);
        }
        let mut seen = false;
        let mut j: usize = 0;
        while j < kept.len()
            invariant
                j <= kept@.len(),
                seen <==> run_ids(kept@.take(j as int)).contains(x.id@),
            decreases kept.len() - j,
        {
            let ghost before = kept@.take(j as int);
            if str_eq(kept[j].id.as_str(), x.id.as_str()) {
                seen = true;
            }
            proof {
                let nxt = kept@.take(j + 1);
                assert(nxt =~= before.push(kept@[j as int]));
                assert(run_ids(nxt) =~= run_ids(before).push(kept@[j as int].id@));
                crate::tmux::manager::lemma_contains_push(run_ids(before), kept@[j as int].id@);
            }
            j += 1;
        }
        proof {
            assert(kept@.take(j as int) =~= kept@);
        }
        if !seen {
            kept.push(x);
        }
        proof {
            k = k + 1;
        }
    }
    proof {
        assert(all.take(k + 1) =~= all);
    }
    if kept.len() > MAX_RUN_HISTORY {
        kept.truncate(MAX_RUN_HISTORY);
    }
    kept
}

} // verus!
