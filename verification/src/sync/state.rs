//! The synchronised state: items by key plus tombstones of deleted keys,
//! merged last-write-wins per key.
//!
//! A key holds at most one item and one tombstone. An item's `data` is the
//! compact JSON text of the value the front end handed over; times are
//! instants of UTC.
use vstd::prelude::*;
use crate::text::str_eq;

verus! {

/// Version of the state format.
pub const STATE_VERSION: u32 = 1;

/// Margin allowed to times from the future before they are clamped (skewed
/// clocks), in seconds.
pub const FUTURE_TIMESTAMP_MARGIN_SECS: i64 = 300;

/// An instant of UTC: whole seconds since the epoch and the nanoseconds past
/// them. Instants are ordered by seconds, then nanoseconds.
#[derive(Debug, Clone, Copy, PartialEq, Eq, Structural)]
pub struct Timestamp {
    pub secs: i64,
    pub nanos: u32,
}

/// `a` is strictly earlier than `b`.
pub open spec fn ts_lt(a: Timestamp, b: Timestamp) -> bool {
    a.secs < b.secs || (a.secs == b.secs && a.nanos < b.nanos)
}

fn ts_before(a: Timestamp, b: Timestamp) -> (r: bool)
    ensures
        r == ts_lt(a, b),
{
    a.secs < b.secs || (a.secs == b.secs && a.nanos < b.nanos)
}

/// An item of the state: its data, when it was last written and by which
/// device.
#[derive(Debug, PartialEq, Eq)]
pub struct SyncItem {
    pub data: String,
    pub updated_at: Timestamp,
    pub device_id: String,
}

pub struct ItemV {
    pub data: Seq<char>,
    pub updated_at: Timestamp,
    pub device_id: Seq<char>,
}

impl View for SyncItem {
    type V = ItemV;

    open spec fn view(&self) -> ItemV {
        ItemV { data: self.data@, updated_at: self.updated_at, device_id: self.device_id@ }
    }
}

impl Clone for SyncItem {
    fn clone(&self) -> (r: Self)
        ensures
            r@ == self@,
    {
        SyncItem { data: self.data.clone(), updated_at: self.updated_at, device_id: self.device_id.clone() }
    }
}

/// What a state holds for one key.
pub struct SyncEntry {
    pub key: String,
    pub item: Option<SyncItem>,
    pub tombstone: Option<Timestamp>,
}

pub open spec fn opt_item_view(o: Option<SyncItem>) -> Option<ItemV> {
    match o {
        Some(i) => Some(i@),
        None => None,
    }
}

/// The item and the tombstone of a key: `(None, None)` for a key the state
/// does not know.
pub type Slot = (Option<ItemV>, Option<Timestamp>);

pub open spec fn slot_of(e: Seq<SyncEntry>, k: Seq<char>) -> Slot
    decreases e.len(),
{
    if e.len() == 0 {
        (None, None)
    } else if e.last().key@ == k {
        (opt_item_view(e.last().item), e.last().tombstone)
    } else {
        slot_of(e.drop_last(), k)
    }
}

pub open spec fn has_key(e: Seq<SyncEntry>, k: Seq<char>) -> bool {
    exists|i: int| 0 <= i < e.len() && e[i].key@ == k
}

pub open spec fn unique_keys(e: Seq<SyncEntry>) -> bool {
    forall|i: int, j: int| 0 <= i < j < e.len() ==> e[i].key@ != e[j].key@
}

// ─── Last write wins ─────────────────────────────────────────────────────────

/// A remote item replaces what a key holds when it is newer than both the
/// local item and the local tombstone.
pub open spec fn item_wins(ri: ItemV, s: Slot) -> bool {
    &&& (s.0 is None || ts_lt(s.0.unwrap().updated_at, ri.updated_at))
    &&& (s.1 is None || ts_lt(s.1.unwrap(), ri.updated_at))
}

/// A remote tombstone deletes what a key holds when it is newer than both.
pub open spec fn tomb_wins(rt: Timestamp, s: Slot) -> bool {
    &&& (s.0 is None || ts_lt(s.0.unwrap().updated_at, rt))
    &&& (s.1 is None || ts_lt(s.1.unwrap(), rt))
}

/// A key after the remote item (if any) was offered to it.
pub open spec fn after_item(s: Slot, ri: Option<ItemV>) -> Slot {
    match ri {
        Some(r) => if item_wins(r, s) {
            (Some(r), None)
        } else {
            s
        },
        None => s,
    }
}

/// A key after the remote tombstone (if any) was offered to it.
pub open spec fn after_tomb(s: Slot, rt: Option<Timestamp>) -> Slot {
    match rt {
        Some(t) => if tomb_wins(t, s) {
            (None, Some(t))
        } else {
            s
        },
        None => s,
    }
}

/// A key after a merge: the remote item is offered first, then the remote
/// tombstone.
pub open spec fn merged_slot(local: Slot, remote: Slot) -> Slot {
    after_tomb(after_item(local, remote.0), remote.1)
}

/// Remote items that win over the local state, counted over the remote
/// entries.
pub open spec fn items_won(local: Seq<SyncEntry>, remote: Seq<SyncEntry>) -> nat
    decreases remote.len(),
{
    if remote.len() == 0 {
        0
    } else {
        let e = remote.last();
        let won: nat = match e.item {
            Some(ri) => if item_wins(ri@, slot_of(local, e.key@)) {
                1
            } else {
                0
            },
            None => 0,
        };
        items_won(local, remote.drop_last()) + won
    }
}

/// Remote tombstones that win, each against its key once the remote item was
/// offered.
pub open spec fn tombs_won(local: Seq<SyncEntry>, remote: Seq<SyncEntry>) -> nat
    decreases remote.len(),
{
    if remote.len() == 0 {
        0
    } else {
        let e = remote.last();
        let won: nat = match e.tombstone {
            Some(t) => if tomb_wins(t, after_item(slot_of(local, e.key@), opt_item_view(e.item))) {
                1
            } else {
                0
            },
            None => 0,
        };
        tombs_won(local, remote.drop_last()) + won
    }
}

/// The synchronised state.
pub struct SyncState {
    version: u32,
    entries: Vec<SyncEntry>,
}

impl SyncState {
    /// No key appears twice.
    #[verifier::type_invariant]
    pub closed spec fn wf(self) -> bool {
        unique_keys(self.entries@)
    }

    pub closed spec fn version_spec(&self) -> u32 {
        self.version
    }

    /// What the state holds for `key`.
    pub closed spec fn slot(&self, key: Seq<char>) -> Slot {
        slot_of(self.entries@, key)
    }

    pub closed spec fn entries_spec(&self) -> Seq<SyncEntry> {
        self.entries@
    }
}

// ─── Lemmas on slots ─────────────────────────────────────────────────────────

proof fn lemma_slot_at(e: Seq<SyncEntry>, j: int)
    requires
        unique_keys(e),
        0 <= j < e.len(),
    ensures
        slot_of(e, e[j].key@) == (opt_item_view(e[j].item), e[j].tombstone),
    decreases e.len(),
{
    if j < e.len() - 1 {
        let t = e.drop_last();
        assert(t[j] == e[j]);
        assert(unique_keys(t));
        lemma_slot_at(t, j);
    }
}

proof fn lemma_slot_absent(e: Seq<SyncEntry>, k: Seq<char>)
    requires
        !has_key(e, k),
    ensures
        slot_of(e, k) == (None::<ItemV>, None::<Timestamp>),
    decreases e.len(),
{
    if e.len() > 0 {
        let t = e.drop_last();
        assert(e.last().key@ != k) by {
            assert(e[e.len() - 1].key@ == e.last().key@);
        }
        assert(!has_key(t, k)) by {
            if has_key(t, k) {
                let i = choose|i: int| 0 <= i < t.len() && t[i].key@ == k;
                assert(e[i].key@ == k);
            }
        }
        lemma_slot_absent(t, k);
    }
}

proof fn lemma_slot_update(e: Seq<SyncEntry>, j: int, x: SyncEntry, k: Seq<char>)
    requires
        unique_keys(e),
        0 <= j < e.len(),
        x.key@ == e[j].key@,
    ensures
        unique_keys(e.update(j, x)),
        slot_of(e.update(j, x), k) == (if k == x.key@ {
            (opt_item_view(x.item), x.tombstone)
        } else {
            slot_of(e, k)
        }),
    decreases e.len(),
{
    let u = e.update(j, x);
    assert(unique_keys(u)) by {
        assert forall|a: int, b: int| 0 <= a < b < u.len() implies u[a].key@ != u[b].key@ by {
            assert(u[a].key@ == e[a].key@);
            assert(u[b].key@ == e[b].key@);
        }
    }
    if k == x.key@ {
        assert(u[j] == x);
        lemma_slot_at(u, j);
    } else if j == e.len() - 1 {
        assert(u.drop_last() =~= e.drop_last());
        assert(u.last() == x);
        assert(slot_of(e, k) == slot_of(e.drop_last(), k));
    } else {
        let t = e.drop_last();
        assert(unique_keys(t));
        assert(u.drop_last() =~= t.update(j, x));
        assert(u.last() == e.last());
        lemma_slot_update(t, j, x, k);
    }
}

proof fn lemma_slot_push(e: Seq<SyncEntry>, x: SyncEntry, k: Seq<char>)
    requires
        unique_keys(e),
        !has_key(e, x.key@),
    ensures
        unique_keys(e.push(x)),
        slot_of(e.push(x), k) == (if k == x.key@ {
            (opt_item_view(x.item), x.tombstone)
        } else {
            slot_of(e, k)
        }),
{
    let p = e.push(x);
    assert(p.drop_last() =~= e);
    assert(unique_keys(p)) by {
        assert forall|a: int, b: int| 0 <= a < b < p.len() implies p[a].key@ != p[b].key@ by {
            if b == e.len() {
                assert(p[a] == e[a]);
            } else {
                assert(p[a] == e[a]);
                assert(p[b] == e[b]);
            }
        }
    }
}

proof fn lemma_has_key_push(e: Seq<SyncEntry>, x: SyncEntry, k: Seq<char>)
    ensures
        has_key(e.push(x), k) == (has_key(e, k) || x.key@ == k),
{
    let p = e.push(x);
    if has_key(e, k) {
        let i = choose|i: int| 0 <= i < e.len() && e[i].key@ == k;
        assert(p[i] == e[i]);
    }
    if x.key@ == k {
        assert(p[e.len() as int] == x);
    }
    if has_key(p, k) {
        let i = choose|i: int| 0 <= i < p.len() && p[i].key@ == k;
        if i < e.len() {
            assert(p[i] == e[i]);
        }
    }
}

// ─── Executable helpers ──────────────────────────────────────────────────────

fn find_key(e: &Vec<SyncEntry>, key: &str) -> (r: Option<usize>)
    ensures
        match r {
            Some(j) => j < e@.len() && e@[j as int].key@ == key@,
            None => !has_key(e@, key@),
        },
{
    let mut i: usize = 0;
    while i < e.len()
        invariant
            i <= e@.len(),
            forall|k: int| 0 <= k < i ==> e@[k].key@ != key@,
        decreases e.len() - i,
    {
        if str_eq(e[i].key.as_str(), key) {
            return Some(i);
        }
        i += 1;
    }
    None
}

fn clone_opt_item(o: &Option<SyncItem>) -> (r: Option<SyncItem>)
    ensures
        opt_item_view(r) == opt_item_view(*o),
{
    match o {
        Some(i) => Some(i.clone()),
        None => None,
    }
}

/// Sets what the state holds for `key`, adding the key when it is new.
fn put_slot(e: &mut Vec<SyncEntry>, key: &str, item: Option<SyncItem>, tombstone: Option<Timestamp>)
    requires
        unique_keys(old(e)@),
    ensures
        unique_keys(final(e)@),
        forall|k: Seq<char>|
            #[trigger] slot_of(final(e)@, k) == (if k == key@ {
                (opt_item_view(item), tombstone)
            } else {
                slot_of(old(e)@, k)
            }),
        forall|k: Seq<char>| #[trigger] has_key(final(e)@, k) == (has_key(old(e)@, k) || k == key@),
{
    let ghost ev = opt_item_view(item);
    let x = SyncEntry { key: crate::text::string_of(&crate::text::chars_of(key)), item, tombstone };
    match find_key(e, key) {
        Some(j) => {
            let ghost e0 = e@;
            e.set(j, x);
            proof {
                assert forall|k: Seq<char>| #[trigger] slot_of(e@, k) == (if k == key@ {
                    (ev, tombstone)
                } else {
                    slot_of(e0, k)
                }) by {
                    lemma_slot_update(e0, j as int, x, k);
                }
                lemma_slot_update(e0, j as int, x, key@);
                assert forall|k: Seq<char>| #[trigger] has_key(e@, k) == (has_key(e0, k) || k == key@) by {
                    if has_key(e0, k) {
                        let i = choose|i: int| 0 <= i < e0.len() && e0[i].key@ == k;
                        assert(e@[i].key@ == k);
                    }
                    if k == key@ {
                        assert(e@[j as int].key@ == k);
                    }
                    if has_key(e@, k) {
                        let i = choose|i: int| 0 <= i < e@.len() && e@[i].key@ == k;
                        assert(e0[i].key@ == k);
                    }
                }
            }
        },
        None => {
            let ghost e0 = e@;
            e.push(x);
            proof {
                assert forall|k: Seq<char>| #[trigger] slot_of(e@, k) == (if k == key@ {
                    (ev, tombstone)
                } else {
                    slot_of(e0, k)
                }) by {
                    lemma_slot_push(e0, x, k);
                }
                lemma_slot_push(e0, x, key@);
                assert forall|k: Seq<char>| #[trigger] has_key(e@, k) == (has_key(e0, k) || k == key@) by {
                    lemma_has_key_push(e0, x, k);
                }
            }
        },
    }
}

/// What the list holds for `key`.
fn get_slot(e: &Vec<SyncEntry>, key: &str) -> (r: (Option<SyncItem>, Option<Timestamp>))
    requires
        unique_keys(e@),
    ensures
        (opt_item_view(r.0), r.1) == slot_of(e@, key@),
{
    match find_key(e, key) {
        Some(j) => {
            proof {
                lemma_slot_at(e@, j as int);
            }
            (clone_opt_item(&e[j].item), e[j].tombstone)
        },
        None => {
            proof {
                lemma_slot_absent(e@, key@);
            }
            (None, None)
        },
    }
}

proof fn lemma_unique_prefix(e: Seq<SyncEntry>, i: int)
    requires
        unique_keys(e),
        0 <= i < e.len(),
    ensures
        !has_key(e.take(i), e[i].key@),
        slot_of(e, e[i].key@) == (opt_item_view(e[i].item), e[i].tombstone),
{
    lemma_slot_at(e, i);
    if has_key(e.take(i), e[i].key@) {
        let a = choose|a: int| 0 <= a < e.take(i).len() && e.take(i)[a].key@ == e[i].key@;
        assert(e[a].key@ == e[i].key@);
    }
}

proof fn lemma_has_key_take(e: Seq<SyncEntry>, i: int, k: Seq<char>)
    requires
        0 <= i < e.len(),
    ensures
        has_key(e.take(i + 1), k) == (has_key(e.take(i), k) || e[i].key@ == k),
{
    assert(e.take(i + 1) =~= e.take(i).push(e[i]));
    lemma_has_key_push(e.take(i), e[i], k);
}

impl Default for SyncState {
    /// An empty state of the current version.
    fn default() -> (r: Self)
        ensures
            r.version_spec() == STATE_VERSION,
            forall|k: Seq<char>| #[trigger] r.slot(k) == (None::<ItemV>, None::<Timestamp>),
    {
        SyncState::new()
    }
}

impl SyncState {
    /// An empty state of the current version.
    pub fn new() -> (r: Self)
        ensures
            r.version_spec() == STATE_VERSION,
            forall|k: Seq<char>| #[trigger] r.slot(k) == (None::<ItemV>, None::<Timestamp>),
    {
        SyncState { version: STATE_VERSION, entries: Vec::new() }
    }

    /// A state of another version, empty.
    pub fn with_version(version: u32) -> (r: Self)
        ensures
            r.version_spec() == version,
            forall|k: Seq<char>| #[trigger] r.slot(k) == (None::<ItemV>, None::<Timestamp>),
    {
        SyncState { version, entries: Vec::new() }
    }

    pub fn version(&self) -> (r: u32)
        ensures
            r == self.version_spec(),
    {
        self.version
    }

    /// Sets the item of `key` (its tombstone, if any, stays).
    pub fn insert_item(&mut self, key: String, item: SyncItem)
        ensures
            final(self).version_spec() == old(self).version_spec(),
            final(self).slot(key@) == (Some(item@), old(self).slot(key@).1),
            forall|k: Seq<char>| k != key@ ==> #[trigger] final(self).slot(k) == old(self).slot(k),
    {
        proof {
            use_type_invariant(&*self);
        }
        let mut e: Vec<SyncEntry> = Vec::new();
        std::mem::swap(&mut e, &mut self.entries);
        let (_, t) = get_slot(&e, key.as_str());
        let ghost iv = item@;
        put_slot(&mut e, key.as_str(), Some(item), t);
        self.entries = e;
        assert(self.slot(key@) == (Some(iv), old(self).slot(key@).1));
    }

    /// Sets the tombstone of `key` (its item, if any, stays).
    pub fn insert_tombstone(&mut self, key: String, at: Timestamp)
        ensures
            final(self).version_spec() == old(self).version_spec(),
            final(self).slot(key@) == (old(self).slot(key@).0, Some(at)),
            forall|k: Seq<char>| k != key@ ==> #[trigger] final(self).slot(k) == old(self).slot(k),
    {
        proof {
            use_type_invariant(&*self);
        }
        let mut e: Vec<SyncEntry> = Vec::new();
        std::mem::swap(&mut e, &mut self.entries);
        let (i, _) = get_slot(&e, key.as_str());
        put_slot(&mut e, key.as_str(), i, Some(at));
        self.entries = e;
    }

    /// The item of `key`, if any.
    pub fn item(&self, key: &str) -> (r: Option<SyncItem>)
        ensures
            opt_item_view(r) == self.slot(key@).0,
    {
        proof {
            use_type_invariant(self);
        }
        get_slot(&self.entries, key).0
    }

    /// The tombstone of `key`, if any.
    pub fn tombstone(&self, key: &str) -> (r: Option<Timestamp>)
        ensures
            r == self.slot(key@).1,
    {
        proof {
            use_type_invariant(self);
        }
        get_slot(&self.entries, key).1
    }

    /// Merges `other` (the remote state) into this one, last write wins per
    /// key: a remote item replaces a key's content when it is newer than the
    /// local item and the local tombstone; then a remote tombstone deletes it
    /// on the same condition. Returns how many offers won.
    pub fn merge(&mut self, other: SyncState) -> (r: usize)
        requires
            other.entries_spec().len() <= usize::MAX / 2,
        ensures
            final(self).version_spec() == old(self).version_spec(),
            forall|k: Seq<char>|
                #[trigger] final(self).slot(k) == merged_slot(old(self).slot(k), other.slot(k)),
            r == items_won(old(self).entries_spec(), other.entries_spec()) + tombs_won(
                old(self).entries_spec(),
                other.entries_spec(),
            ),
    {
        proof {
            use_type_invariant(&*self);
            use_type_invariant(&other);
        }
        let mut e: Vec<SyncEntry> = Vec::new();
        std::mem::swap(&mut e, &mut self.entries);
        let ghost l = e@;
        let ghost re = other.entries@;
        let mut changes: usize = 0;
        let mut i: usize = 0;
        while i < other.entries.len()
            invariant
                i <= re.len(),
                re == other.entries@,
                unique_keys(re),
                unique_keys(e@),
                unique_keys(l),
                forall|k: Seq<char>|
                    #[trigger] slot_of(e@, k) == (if has_key(re.take(i as int), k) {
                        after_item(slot_of(l, k), slot_of(re, k).0)
                    } else {
                        slot_of(l, k)
                    }),
                changes == items_won(l, re.take(i as int)),
                changes <= i,
            decreases re.len() - i,
        {
            let ghost k = re[i as int].key@;
            proof {
                lemma_unique_prefix(re, i as int);
                assert(re.take(i + 1).drop_last() =~= re.take(i as int));
                assert(re.take(i + 1).last() == re[i as int]);
                assert forall|kk: Seq<char>| #[trigger] has_key(re.take(i + 1), kk) == (has_key(re.take(i as int), kk) || re[i as int].key@ == kk) by {
                    lemma_has_key_take(re, i as int, kk);
                }
            }
            let key = &other.entries[i].key;
            match &other.entries[i].item {
                Some(ri) => {
                    let (li, lt) = get_slot(&e, key.as_str());
                    let wins_item = match &li {
                        Some(x) => ts_before(x.updated_at, ri.updated_at),
                        None => true,
                    };
                    let wins_tomb = match lt {
                        Some(t) => ts_before(t, ri.updated_at),
                        None => true,
                    };
                    if wins_item && wins_tomb {
                        put_slot(&mut e, key.as_str(), Some(ri.clone()), None);
                        changes += 1;
                    }
                },
                None => {},
            }
            i += 1;
        }
        proof {
            assert(re.take(i as int) =~= re);
            assert forall|k: Seq<char>| #[trigger] slot_of(e@, k) == after_item(slot_of(l, k), slot_of(re, k).0) by {
                if !has_key(re, k) {
                    lemma_slot_absent(re, k);
                }
            }
        }
        let ghost mid = e@;
        let ghost won1 = changes;
        let mut i: usize = 0;
        while i < other.entries.len()
            invariant
                i <= re.len(),
                re == other.entries@,
                unique_keys(re),
                unique_keys(e@),
                forall|k: Seq<char>| #[trigger] slot_of(mid, k) == after_item(slot_of(l, k), slot_of(re, k).0),
                forall|k: Seq<char>|
                    #[trigger] slot_of(e@, k) == (if has_key(re.take(i as int), k) {
                        merged_slot(slot_of(l, k), slot_of(re, k))
                    } else {
                        slot_of(mid, k)
                    }),
                won1 == items_won(l, re),
                won1 <= re.len(),
                re.len() <= usize::MAX / 2,
                changes == won1 + tombs_won(l, re.take(i as int)),
                changes <= won1 + i,
            decreases re.len() - i,
        {
            proof {
                lemma_unique_prefix(re, i as int);
                assert(re.take(i + 1).drop_last() =~= re.take(i as int));
                assert(re.take(i + 1).last() == re[i as int]);
                assert forall|kk: Seq<char>| #[trigger] has_key(re.take(i + 1), kk) == (has_key(re.take(i as int), kk) || re[i as int].key@ == kk) by {
                    lemma_has_key_take(re, i as int, kk);
                }
            }
            let key = &other.entries[i].key;
            match other.entries[i].tombstone {
                Some(rt) => {
                    let (li, lt) = get_slot(&e, key.as_str());
                    let wins_item = match &li {
                        Some(x) => ts_before(x.updated_at, rt),
                        None => true,
                    };
                    let wins_tomb = match lt {
                        Some(t) => ts_before(t, rt),
                        None => true,
                    };
                    if wins_item && wins_tomb {
                        put_slot(&mut e, key.as_str(), None, Some(rt));
                        changes += 1;
                    }
                },
                None => {},
            }
            i += 1;
        }
        proof {
            assert(re.take(i as int) =~= re);
            assert forall|k: Seq<char>| #[trigger] slot_of(e@, k) == merged_slot(slot_of(l, k), slot_of(re, k)) by {
                if !has_key(re, k) {
                    lemma_slot_absent(re, k);
                }
            }
        }
        self.entries = e;
        changes
    }
}


impl SyncState {
    /// Number of keys the state knows (for the bound of `merge`).
    pub fn entry_count(&self) -> (r: usize)
        ensures
            r == self.entries_spec().len(),
    {
        self.entries.len()
    }

    /// Number of keys with an item.
    pub fn items_len(&self) -> (r: usize)
        ensures
            r == count_items(self.entries_spec()),
    {
        let mut n: usize = 0;
        let mut i: usize = 0;
        while i < self.entries.len()
            invariant
                i <= self.entries@.len(),
                n == count_items(self.entries@.take(i as int)),
                n <= i,
            decreases self.entries.len() - i,
        {
            assert(self.entries@.take(i + 1).drop_last() =~= self.entries@.take(i as int));
            if self.entries[i].item.is_some() {
                n += 1;
            }
            i += 1;
        }
        assert(self.entries@.take(i as int) =~= self.entries@);
        n
    }

    /// Number of keys with a tombstone.
    pub fn tombstones_len(&self) -> (r: usize)
        ensures
            r == count_tombs(self.entries_spec()),
    {
        let mut n: usize = 0;
        let mut i: usize = 0;
        while i < self.entries.len()
            invariant
                i <= self.entries@.len(),
                n == count_tombs(self.entries@.take(i as int)),
                n <= i,
            decreases self.entries.len() - i,
        {
            assert(self.entries@.take(i + 1).drop_last() =~= self.entries@.take(i as int));
            if self.entries[i].tombstone.is_some() {
                n += 1;
            }
            i += 1;
        }
        assert(self.entries@.take(i as int) =~= self.entries@);
        n
    }

    /// Copies of the entries, in order: what a key holds, for each key.
    pub fn entries(&self) -> (r: Vec<(String, Option<SyncItem>, Option<Timestamp>)>)
        ensures
            r@.len() == self.entries_spec().len(),
            forall|i: int|
                0 <= i < r@.len() ==> (#[trigger] r@[i]).0@ == self.entries_spec()[i].key@
                    && opt_item_view(r@[i].1) == opt_item_view(self.entries_spec()[i].item)
                    && r@[i].2 == self.entries_spec()[i].tombstone,
    {
        let mut out: Vec<(String, Option<SyncItem>, Option<Timestamp>)> = Vec::new();
        let mut i: usize = 0;
        while i < self.entries.len()
            invariant
                i <= self.entries@.len(),
                out@.len() == i,
                forall|j: int|
                    0 <= j < i ==> (#[trigger] out@[j]).0@ == self.entries@[j].key@ && opt_item_view(
                        out@[j].1,
                    ) == opt_item_view(self.entries@[j].item) && out@[j].2 == self.entries@[j].tombstone,
            decreases self.entries.len() - i,
        {
            let e = &self.entries[i];
            out.push((e.key.clone(), clone_opt_item(&e.item), e.tombstone));
            i += 1;
        }
        out
    }
}

pub open spec fn count_items(e: Seq<SyncEntry>) -> nat
    decreases e.len(),
{
    if e.len() == 0 {
        0
    } else {
        count_items(e.drop_last()) + if e.last().item is Some {
            1nat
        } else {
            0nat
        }
    }
}

pub open spec fn count_tombs(e: Seq<SyncEntry>) -> nat
    decreases e.len(),
{
    if e.len() == 0 {
        0
    } else {
        count_tombs(e.drop_last()) + if e.last().tombstone is Some {
            1nat
        } else {
            0nat
        }
    }
}

// ─── Equality of content ─────────────────────────────────────────────────────

/// Two states hold the same content: same version, the same deleted keys,
/// and the same keys with the same data. Times and devices are ignored.
pub open spec fn same_content(a: SyncState, b: SyncState) -> bool {
    &&& a.version_spec() == b.version_spec()
    &&& forall|k: Seq<char>| (#[trigger] a.slot(k)).1 is Some <==> b.slot(k).1 is Some
    &&& forall|k: Seq<char>| (#[trigger] a.slot(k)).0 is Some <==> b.slot(k).0 is Some
    &&& forall|k: Seq<char>|
        (#[trigger] a.slot(k)).0 is Some ==> a.slot(k).0.unwrap().data == b.slot(k).0.unwrap().data
}

/// Every key of `a` is matched in `b`: its tombstone by a tombstone, its item
/// by an item with the same data.
spec fn covered_by(a: Seq<SyncEntry>, b: Seq<SyncEntry>) -> bool {
    forall|i: int|
        0 <= i < a.len() ==> {
            let s = slot_of(b, (#[trigger] a[i]).key@);
            &&& (a[i].tombstone is Some ==> s.1 is Some)
            &&& (a[i].item is Some ==> s.0 is Some && s.0.unwrap().data == a[i].item.unwrap().data@)
        }
}

proof fn lemma_covered_slots(a: Seq<SyncEntry>, b: Seq<SyncEntry>, k: Seq<char>)
    requires
        unique_keys(a),
        covered_by(a, b),
    ensures
        slot_of(a, k).1 is Some ==> slot_of(b, k).1 is Some,
        slot_of(a, k).0 is Some ==> slot_of(b, k).0 is Some && slot_of(b, k).0.unwrap().data == slot_of(
            a,
            k,
        ).0.unwrap().data,
{
    if has_key(a, k) {
        let i = choose|i: int| 0 <= i < a.len() && a[i].key@ == k;
        lemma_slot_at(a, i);
        assert(a[i].key@ == k);
    } else {
        lemma_slot_absent(a, k);
    }
}

fn covers(a: &Vec<SyncEntry>, b: &Vec<SyncEntry>) -> (r: bool)
    requires
        unique_keys(b@),
    ensures
        r == covered_by(a@, b@),
{
    let mut i: usize = 0;
    while i < a.len()
        invariant
            i <= a@.len(),
            unique_keys(b@),
            covered_by(a@.take(i as int), b@),
        decreases a.len() - i,
    {
        let e = &a[i];
        let (bi, bt) = get_slot(b, e.key.as_str());
        let ok_t = e.tombstone.is_none() || bt.is_some();
        let ok_i = match &e.item {
            Some(x) => match &bi {
                Some(y) => str_eq(x.data.as_str(), y.data.as_str()),
                None => false,
            },
            None => true,
        };
        if !(ok_t && ok_i) {
            proof {
                assert(!covered_by(a@, b@)) by {
                    assert(a@[i as int] == *e);
                }
            }
            return false;
        }
        proof {
            assert forall|j: int| 0 <= j < i + 1 implies {
                let s = slot_of(b@, (#[trigger] a@.take(i + 1)[j]).key@);
                &&& (a@.take(i + 1)[j].tombstone is Some ==> s.1 is Some)
                &&& (a@.take(i + 1)[j].item is Some ==> s.0 is Some && s.0.unwrap().data == a@.take(
                    i + 1,
                )[j].item.unwrap().data@)
            } by {
                if j < i {
                    assert(a@.take(i + 1)[j] == a@.take(i as int)[j]);
                }
            }
        }
        i += 1;
    }
    assert(a@.take(i as int) =~= a@);
    true
}

impl SyncState {
    /// Equality of content: the same version, the same deleted keys and the
    /// same keys with the same data, whatever their times and devices. A
    /// push that only refreshes times brings nothing new.
    pub fn content_eq(&self, other: &SyncState) -> (r: bool)
        ensures
            r == same_content(*self, *other),
    {
        proof {
            use_type_invariant(self);
            use_type_invariant(other);
        }
        let r = self.version == other.version && covers(&self.entries, &other.entries) && covers(
            &other.entries,
            &self.entries,
        );
        proof {
            if r {
                assert forall|k: Seq<char>| #[trigger] self.slot(k) == self.slot(k) implies {
                    &&& (self.slot(k).1 is Some <==> other.slot(k).1 is Some)
                    &&& (self.slot(k).0 is Some <==> other.slot(k).0 is Some)
                    &&& (self.slot(k).0 is Some ==> self.slot(k).0.unwrap().data == other.slot(k).0.unwrap().data)
                } by {
                    lemma_covered_slots(self.entries@, other.entries@, k);
                    lemma_covered_slots(other.entries@, self.entries@, k);
                }
            } else if self.version == other.version {
                if !covered_by(self.entries@, other.entries@) {
                    let i = choose|i: int| 0 <= i < self.entries@.len() && !({
                        let s = slot_of(other.entries@, (#[trigger] self.entries@[i]).key@);
                        &&& (self.entries@[i].tombstone is Some ==> s.1 is Some)
                        &&& (self.entries@[i].item is Some ==> s.0 is Some && s.0.unwrap().data
                            == self.entries@[i].item.unwrap().data@)
                    });
                    lemma_slot_at(self.entries@, i);
                    let k = self.entries@[i].key@;
                    assert(self.slot(k) == slot_of(self.entries@, k));
                    assert(other.slot(k) == slot_of(other.entries@, k));
                } else {
                    let i = choose|i: int| 0 <= i < other.entries@.len() && !({
                        let s = slot_of(self.entries@, (#[trigger] other.entries@[i]).key@);
                        &&& (other.entries@[i].tombstone is Some ==> s.1 is Some)
                        &&& (other.entries@[i].item is Some ==> s.0 is Some && s.0.unwrap().data
                            == other.entries@[i].item.unwrap().data@)
                    });
                    lemma_slot_at(other.entries@, i);
                    let k = other.entries@[i].key@;
                    assert(other.slot(k) == slot_of(other.entries@, k));
                    assert(self.slot(k) == slot_of(self.entries@, k));
                }
            }
        }
        r
    }
}

// ─── Clamping and pruning ────────────────────────────────────────────────────

/// A time clamped to `ceiling`.
pub open spec fn clamp_ts(t: Timestamp, ceiling: Timestamp) -> Timestamp {
    if ts_lt(ceiling, t) {
        ceiling
    } else {
        t
    }
}

/// A key with its times clamped to `ceiling`.
pub open spec fn clamp_slot(s: Slot, ceiling: Timestamp) -> Slot {
    (
        match s.0 {
            Some(i) => Some(ItemV { updated_at: clamp_ts(i.updated_at, ceiling), ..i }),
            None => None,
        },
        match s.1 {
            Some(t) => Some(clamp_ts(t, ceiling)),
            None => None,
        },
    )
}

/// Times past `ceiling` among the entries.
pub open spec fn count_future(e: Seq<SyncEntry>, ceiling: Timestamp) -> nat
    decreases e.len(),
{
    if e.len() == 0 {
        0
    } else {
        let x = e.last();
        let a: nat = match x.item {
            Some(i) => if ts_lt(ceiling, i.updated_at) {
                1
            } else {
                0
            },
            None => 0,
        };
        let b: nat = match x.tombstone {
            Some(t) => if ts_lt(ceiling, t) {
                1
            } else {
                0
            },
            None => 0,
        };
        count_future(e.drop_last(), ceiling) + a + b
    }
}

/// Skew between the local clock and the server's, in seconds, from which it
/// is reported.
pub const CLOCK_SKEW_WARN_SECS: i64 = 300;

/// An instant in nanoseconds since the epoch.
pub open spec fn ts_nanos(t: Timestamp) -> int {
    t.secs * 1_000_000_000 + t.nanos
}

/// The whole seconds in a span of `d` nanoseconds, rounded toward zero.
pub open spec fn whole_secs(d: int) -> int {
    if d >= 0 {
        d / 1_000_000_000
    } else {
        -((-d) / 1_000_000_000)
    }
}

/// How far the local clock (`now`) is ahead of the server's, in whole
/// seconds (negative when it is behind).
pub open spec fn skew_secs(server: Timestamp, now: Timestamp) -> int {
    whole_secs(ts_nanos(now) - ts_nanos(server))
}

proof fn lemma_whole_secs(sd: int, nd: int)
    requires
        -1_000_000_000 < nd < 1_000_000_000,
    ensures
        whole_secs(sd * 1_000_000_000 + nd) == if sd > 0 && nd < 0 {
            sd - 1
        } else if sd < 0 && nd > 0 {
            sd + 1
        } else {
            sd
        },
{
    let d = sd * 1_000_000_000 + nd;
    if sd > 0 && nd < 0 {
        assert(d == (sd - 1) * 1_000_000_000 + (1_000_000_000 + nd));
    } else if sd < 0 && nd > 0 {
        assert(-d == (-sd - 1) * 1_000_000_000 + (1_000_000_000 - nd));
    } else if sd >= 0 {
        assert(d == sd * 1_000_000_000 + nd);
    } else {
        assert(-d == (-sd) * 1_000_000_000 + (-nd));
    }
}

/// The skew between the local clock (`now`) and the server's (the time of
/// its reply), when it reaches the warning threshold: positive when the
/// local clock is ahead.
pub fn significant_clock_skew(server: Timestamp, now: Timestamp) -> (r: Option<i64>)
    requires
        server.nanos < 1_000_000_000,
        now.nanos < 1_000_000_000,
        i64::MIN <= now.secs - server.secs <= i64::MAX,
    ensures
        r == (if skew_secs(server, now) >= CLOCK_SKEW_WARN_SECS || skew_secs(server, now) <= -CLOCK_SKEW_WARN_SECS {
            Some(skew_secs(server, now) as i64)
        } else {
            None::<i64>
        }),
{
    let sd: i64 = now.secs - server.secs;
    let nd: i64 = now.nanos as i64 - server.nanos as i64;
    let skew: i64 = if sd > 0 && nd < 0 {
        sd - 1
    } else if sd < 0 && nd > 0 {
        sd + 1
    } else {
        sd
    };
    proof {
        lemma_whole_secs(sd as int, nd as int);
        assert(ts_nanos(now) - ts_nanos(server) == sd * 1_000_000_000 + nd) by (nonlinear_arith)
            requires
                sd == now.secs - server.secs,
                nd == now.nanos - server.nanos,
        ;
    }
    if skew >= CLOCK_SKEW_WARN_SECS || skew <= -CLOCK_SKEW_WARN_SECS {
        Some(skew)
    } else {
        None
    }
}

/// The latest time accepted from other devices: `now` plus the margin.
pub open spec fn future_ceiling(now: Timestamp) -> Timestamp {
    Timestamp { secs: (now.secs + FUTURE_TIMESTAMP_MARGIN_SECS) as i64, nanos: now.nanos }
}

/// Tombstones older than `cutoff` among the entries.
pub open spec fn count_older(e: Seq<SyncEntry>, cutoff: Timestamp) -> nat
    decreases e.len(),
{
    if e.len() == 0 {
        0
    } else {
        count_older(e.drop_last(), cutoff) + match e.last().tombstone {
            Some(t) => if ts_lt(t, cutoff) {
                1nat
            } else {
                0nat
            },
            None => 0nat,
        }
    }
}

/// The oldest tombstone time kept by a retention of `days` days.
pub open spec fn prune_cutoff(now: Timestamp, days: u32) -> Timestamp {
    Timestamp { secs: (now.secs - days * 86400) as i64, nanos: now.nanos }
}

impl SyncState {
    /// Clamps the times from the future (a device with its clock ahead) to
    /// `now` plus the margin, so that such an item does not win every merge
    /// until reality catches up. Returns how many times were clamped.
    pub fn clamp_future_timestamps(&mut self, now: Timestamp) -> (r: usize)
        requires
            now.secs <= i64::MAX - FUTURE_TIMESTAMP_MARGIN_SECS,
            now.nanos < 1_000_000_000,
            old(self).entries_spec().len() <= usize::MAX / 2,
        ensures
            final(self).version_spec() == old(self).version_spec(),
            forall|k: Seq<char>|
                #[trigger] final(self).slot(k) == clamp_slot(old(self).slot(k), future_ceiling(now)),
            r == count_future(old(self).entries_spec(), future_ceiling(now)),
    {
        proof {
            use_type_invariant(&*self);
        }
        let ceiling = Timestamp { secs: now.secs + FUTURE_TIMESTAMP_MARGIN_SECS, nanos: now.nanos };
        let mut e: Vec<SyncEntry> = Vec::new();
        std::mem::swap(&mut e, &mut self.entries);
        let ghost src = e@;
        let mut out: Vec<SyncEntry> = Vec::new();
        let mut n: usize = 0;
        let mut i: usize = 0;
        while i < e.len()
            invariant
                i <= e@.len(),
                e@ == src,
                unique_keys(src),
                src.len() <= usize::MAX / 2,
                ceiling == future_ceiling(now),
                out@.len() == i,
                forall|j: int| 0 <= j < i ==> (#[trigger] out@[j]).key@ == src[j].key@,
                forall|j: int|
                    0 <= j < i ==> (opt_item_view((#[trigger] out@[j]).item), out@[j].tombstone)
                        == clamp_slot((opt_item_view(src[j].item), src[j].tombstone), ceiling),
                n == count_future(src.take(i as int), ceiling),
                n <= 2 * i,
            decreases e.len() - i,
        {
            let x = &e[i];
            let mut clamped: usize = 0;
            let item = match &x.item {
                Some(it) => {
                    if ts_before(ceiling, it.updated_at) {
                        clamped += 1;
                        Some(SyncItem { data: it.data.clone(), updated_at: ceiling, device_id: it.device_id.clone() })
                    } else {
                        Some(it.clone())
                    }
                },
                None => None,
            };
            let tomb = match x.tombstone {
                Some(t) => {
                    if ts_before(ceiling, t) {
                        clamped += 1;
                        Some(ceiling)
                    } else {
                        Some(t)
                    }
                },
                None => None,
            };
            assert(src.take(i + 1).drop_last() =~= src.take(i as int));
            assert(src.take(i + 1).last() == src[i as int]);
            out.push(SyncEntry { key: x.key.clone(), item, tombstone: tomb });
            n += clamped;
            i += 1;
        }
        assert(src.take(i as int) =~= src);
        proof {
            assert(unique_keys(out@)) by {
                assert forall|a: int, b: int| 0 <= a < b < out@.len() implies out@[a].key@ != out@[b].key@ by {
                    assert(out@[a].key@ == src[a].key@);
                    assert(out@[b].key@ == src[b].key@);
                }
            }
            assert forall|k: Seq<char>| #[trigger] slot_of(out@, k) == clamp_slot(slot_of(src, k), ceiling) by {
                if has_key(src, k) {
                    let j = choose|j: int| 0 <= j < src.len() && src[j].key@ == k;
                    lemma_slot_at(src, j);
                    assert(out@[j].key@ == k);
                    lemma_slot_at(out@, j);
                } else {
                    lemma_slot_absent(src, k);
                    assert(!has_key(out@, k)) by {
                        if has_key(out@, k) {
                            let j = choose|j: int| 0 <= j < out@.len() && out@[j].key@ == k;
                            assert(src[j].key@ == k);
                        }
                    }
                    lemma_slot_absent(out@, k);
                }
            }
        }
        self.entries = out;
        n
    }

    /// Drops the tombstones older than `retention_days` days before `now`
    /// (0 keeps them all). Returns how many were dropped.
    pub fn prune_tombstones(&mut self, now: Timestamp, retention_days: u32) -> (r: usize)
        requires
            now.secs >= i64::MIN + 86400 * 4294967295,
        ensures
            final(self).version_spec() == old(self).version_spec(),
            retention_days == 0 ==> r == 0 && forall|k: Seq<char>| #[trigger] final(self).slot(k) == old(self).slot(k),
            retention_days > 0 ==> r == count_older(old(self).entries_spec(), prune_cutoff(now, retention_days))
                && forall|k: Seq<char>|
                #[trigger] final(self).slot(k) == (old(self).slot(k).0, match old(self).slot(k).1 {
                    Some(t) => if ts_lt(t, prune_cutoff(now, retention_days)) {
                        None
                    } else {
                        Some(t)
                    },
                    None => None,
                }),
    {
        proof {
            use_type_invariant(&*self);
        }
        if retention_days == 0 {
            return 0;
        }
        let cutoff = Timestamp { secs: now.secs - (retention_days as i64) * 86400, nanos: now.nanos };
        let mut e: Vec<SyncEntry> = Vec::new();
        std::mem::swap(&mut e, &mut self.entries);
        let ghost src = e@;
        let mut out: Vec<SyncEntry> = Vec::new();
        let mut n: usize = 0;
        let mut i: usize = 0;
        while i < e.len()
            invariant
                i <= e@.len(),
                e@ == src,
                unique_keys(src),
                cutoff == prune_cutoff(now, retention_days),
                out@.len() == i,
                forall|j: int| 0 <= j < i ==> (#[trigger] out@[j]).key@ == src[j].key@,
                forall|j: int|
                    0 <= j < i ==> opt_item_view((#[trigger] out@[j]).item) == opt_item_view(src[j].item)
                        && out@[j].tombstone == (match src[j].tombstone {
                        Some(t) => if ts_lt(t, cutoff) {
                            None
                        } else {
                            Some(t)
                        },
                        None => None,
                    }),
                n == count_older(src.take(i as int), cutoff),
                n <= i,
            decreases e.len() - i,
        {
            let x = &e[i];
            let tomb = match x.tombstone {
                Some(t) => {
                    if ts_before(t, cutoff) {
                        n += 1;
                        None
                    } else {
                        Some(t)
                    }
                },
                None => None,
            };
            assert(src.take(i + 1).drop_last() =~= src.take(i as int));
            assert(src.take(i + 1).last() == src[i as int]);
            out.push(SyncEntry { key: x.key.clone(), item: clone_opt_item(&x.item), tombstone: tomb });
            i += 1;
        }
        assert(src.take(i as int) =~= src);
        proof {
            assert(unique_keys(out@)) by {
                assert forall|a: int, b: int| 0 <= a < b < out@.len() implies out@[a].key@ != out@[b].key@ by {
                    assert(out@[a].key@ == src[a].key@);
                    assert(out@[b].key@ == src[b].key@);
                }
            }
            assert forall|k: Seq<char>| #[trigger] slot_of(out@, k) == (slot_of(src, k).0, match slot_of(src, k).1 {
                Some(t) => if ts_lt(t, cutoff) {
                    None
                } else {
                    Some(t)
                },
                None => None,
            }) by {
                if has_key(src, k) {
                    let j = choose|j: int| 0 <= j < src.len() && src[j].key@ == k;
                    lemma_slot_at(src, j);
                    assert(out@[j].key@ == k);
                    lemma_slot_at(out@, j);
                } else {
                    lemma_slot_absent(src, k);
                    assert(!has_key(out@, k)) by {
                        if has_key(out@, k) {
                            let j = choose|j: int| 0 <= j < out@.len() && out@[j].key@ == k;
                            assert(src[j].key@ == k);
                        }
                    }
                    lemma_slot_absent(out@, k);
                }
            }
        }
        self.entries = out;
        n
    }
}

// ─── Laws ────────────────────────────────────────────────────────────────────

/// Offering a key the same remote content twice changes nothing the second
/// time, and no offer wins then.
pub proof fn lemma_merged_slot_is_idempotent(l: Slot, r: Slot)
    ensures
        merged_slot(merged_slot(l, r), r) == merged_slot(l, r),
        !(r.0 is Some && item_wins(r.0.unwrap(), merged_slot(l, r))),
        !(r.1 is Some && tomb_wins(r.1.unwrap(), after_item(merged_slot(l, r), r.0))),
{
}

proof fn lemma_no_wins_again(m: Seq<SyncEntry>, l: Seq<SyncEntry>, re: Seq<SyncEntry>, n: int)
    requires
        unique_keys(re),
        0 <= n <= re.len(),
        forall|k: Seq<char>| #[trigger] slot_of(m, k) == merged_slot(slot_of(l, k), slot_of(re, k)),
    ensures
        items_won(m, re.take(n)) == 0,
        tombs_won(m, re.take(n)) == 0,
    decreases n,
{
    if n > 0 {
        let t = re.take(n);
        assert(t.drop_last() =~= re.take(n - 1));
        assert(t.last() == re[n - 1]);
        lemma_no_wins_again(m, l, re, n - 1);
        let k = re[n - 1].key@;
        lemma_slot_at(re, n - 1);
        lemma_merged_slot_is_idempotent(slot_of(l, k), slot_of(re, k));
        assert(slot_of(m, k) == merged_slot(slot_of(l, k), slot_of(re, k)));
    }
}

/// Merging the same remote state twice: the second merge finds nothing to
/// change (no offer wins) and leaves every key as the first one left it.
pub proof fn lemma_merge_is_idempotent(local: SyncState, once: SyncState, remote: SyncState)
    requires
        remote.wf(),
        forall|k: Seq<char>| #[trigger] once.slot(k) == merged_slot(local.slot(k), remote.slot(k)),
    ensures
        items_won(once.entries_spec(), remote.entries_spec()) == 0,
        tombs_won(once.entries_spec(), remote.entries_spec()) == 0,
        forall|k: Seq<char>| #[trigger] merged_slot(once.slot(k), remote.slot(k)) == once.slot(k),
{
    let re = remote.entries_spec();
    assert(re.take(re.len() as int) =~= re);
    assert forall|k: Seq<char>| #[trigger] slot_of(once.entries_spec(), k) == merged_slot(
        slot_of(local.entries_spec(), k),
        slot_of(re, k),
    ) by {
        assert(once.slot(k) == merged_slot(local.slot(k), remote.slot(k)));
    }
    lemma_no_wins_again(once.entries_spec(), local.entries_spec(), re, re.len() as int);
    assert forall|k: Seq<char>| #[trigger] merged_slot(once.slot(k), remote.slot(k)) == once.slot(k) by {
        lemma_merged_slot_is_idempotent(local.slot(k), remote.slot(k));
    }
}

/// Clamping twice clamps nothing the second time: every time is then at most
/// the ceiling.
pub proof fn lemma_clamp_is_idempotent(s: Slot, ceiling: Timestamp)
    ensures
        clamp_slot(clamp_slot(s, ceiling), ceiling) == clamp_slot(s, ceiling),
        clamp_slot(s, ceiling).0 matches Some(i) ==> !ts_lt(ceiling, i.updated_at),
        clamp_slot(s, ceiling).1 matches Some(t) ==> !ts_lt(ceiling, t),
{
}

} // verus!
