//! Idempotency cache of the gateway: replies recorded under request keys,
//! handed back while they are fresh.
use vstd::prelude::*;
use std::time::{Duration, Instant};

verus! {

/// How long a recorded reply is handed back: 300 seconds, in nanoseconds.
pub const TTL_NANOS: u64 = 300_000_000_000;

/// Most entries the cache holds at once.
pub const MAX_ENTRIES: usize = 1_024;

/// `std::time::Instant`, carried opaque: the origin of the cache's clock.
#[verifier::external_type_specification]
#[verifier::external_body]
pub struct ExInstant(Instant);

/// Calls `Instant::now`. Nothing is stated of the reading, which depends on
/// the clock.
#[verifier::external_body]
fn instant_now() -> Instant {
    Instant::now()
}

/// Calls `Instant::elapsed` on `epoch`. Nothing is stated of the reading,
/// which depends on the clock.
#[verifier::external_body]
fn elapsed_since(epoch: &Instant) -> Duration {
    epoch.elapsed()
}

/// Calls `Duration::as_nanos` and gives the whole nanoseconds cut to 64 bits.
/// Nothing is stated of the result: `Duration` is opaque here, so there is
/// nothing to relate it to.
#[verifier::external_body]
fn whole_nanos(d: &Duration) -> u64 {
    d.as_nanos() as u64
}

/// The cache clock: nanoseconds elapsed since `epoch`.
fn nanos_since(epoch: &Instant) -> u64 {
    let d = elapsed_since(epoch);
    whole_nanos(&d)
}

/// One recorded reply.
struct Entry {
    key: String,
    result: Vec<u8>,
    inserted: u64,
}

spec fn keys_of(es: Seq<Entry>) -> Seq<Seq<char>> {
    es.map_values(|e: Entry| e.key@)
}

spec fn value_of(e: Entry) -> (Seq<u8>, u64) {
    (e.result@, e.inserted)
}

spec fn entries_map(es: Seq<Entry>) -> Map<Seq<char>, (Seq<u8>, u64)> {
    Map::new(
        |k: Seq<char>| keys_of(es).contains(k),
        |k: Seq<char>| value_of(es[keys_of(es).index_of(k)]),
    )
}

proof fn lemma_entries_map_at(es: Seq<Entry>, i: int)
    requires
        keys_of(es).no_duplicates(),
        0 <= i < es.len(),
    ensures
        entries_map(es).dom().contains(es[i].key@),
        entries_map(es)[es[i].key@] == value_of(es[i]),
{
    let ks = keys_of(es);
    assert(ks[i] == es[i].key@);
    assert(ks.contains(es[i].key@));
    let j = ks.index_of(es[i].key@);
    assert(ks[j] == es[i].key@);
}

proof fn lemma_entries_map_remove(es: Seq<Entry>, i: int)
    requires
        keys_of(es).no_duplicates(),
        0 <= i < es.len(),
    ensures
        keys_of(es.remove(i)).no_duplicates(),
        entries_map(es.remove(i)) == entries_map(es).remove(es[i].key@),
{
    let ks = keys_of(es);
    let rs = es.remove(i);
    let ks2 = keys_of(rs);
    assert(ks2 =~= ks.remove(i));
    assert forall|a: int, b: int| 0 <= a < ks2.len() && 0 <= b < ks2.len() && a != b implies ks2[a]
        != ks2[b] by {
        let a0 = if a < i { a } else { a + 1 };
        let b0 = if b < i { b } else { b + 1 };
        assert(ks2[a] == ks[a0]);
        assert(ks2[b] == ks[b0]);
    }
    let m = entries_map(es).remove(es[i].key@);
    let m2 = entries_map(rs);
    assert(ks[i] == es[i].key@);
    assert forall|k: Seq<char>| m2.dom().contains(k) <==> m.dom().contains(k) by {
        if ks2.contains(k) {
            let a = choose|a: int| 0 <= a < ks2.len() && ks2[a] == k;
            let a0 = if a < i { a } else { a + 1 };
            assert(ks[a0] == k);
            assert(a0 != i);
            assert(ks.contains(k));
        }
        if ks.contains(k) && k != es[i].key@ {
            let a0 = choose|a: int| 0 <= a < ks.len() && ks[a] == k;
            assert(a0 != i);
            let a = if a0 < i { a0 } else { a0 - 1 };
            assert(ks2[a] == k);
        }
    }
    assert forall|k: Seq<char>| #[trigger] m2.dom().contains(k) implies m2[k] == m[k] by {
        let a = ks2.index_of(k);
        let a0 = if a < i { a } else { a + 1 };
        assert(rs[a] == es[a0]);
        assert(ks[a0] == k);
        lemma_entries_map_at(es, a0);
    }
    assert(m2 =~= m);
}

proof fn lemma_entries_map_update(es: Seq<Entry>, i: int, e: Entry)
    requires
        keys_of(es).no_duplicates(),
        0 <= i < es.len(),
        e.key@ == es[i].key@,
    ensures
        keys_of(es.update(i, e)).no_duplicates(),
        entries_map(es.update(i, e)) == entries_map(es).insert(e.key@, value_of(e)),
{
    let ks = keys_of(es);
    let us = es.update(i, e);
    let ks2 = keys_of(us);
    assert(ks2 =~= ks);
    let m = entries_map(es).insert(e.key@, value_of(e));
    let m2 = entries_map(us);
    assert(ks[i] == e.key@);
    assert forall|k: Seq<char>| #[trigger] m2.dom().contains(k) implies m2[k] == m[k] by {
        assert(ks2.contains(k));
        let a = ks2.index_of(k);
        assert(0 <= a < ks2.len() && ks2[a] == k);
        if a == i {
            assert(k == e.key@);
        } else {
            assert(ks[a] == k);
            assert(k != e.key@);
            assert(us[a] == es[a]);
            lemma_entries_map_at(es, a);
        }
    }
    assert(m2.dom() =~= m.dom()) by {
        assert(ks[i] == e.key@);
    }
    assert(m2 =~= m);
}

proof fn lemma_entries_map_push(es: Seq<Entry>, e: Entry)
    requires
        keys_of(es).no_duplicates(),
        !keys_of(es).contains(e.key@),
    ensures
        keys_of(es.push(e)).no_duplicates(),
        entries_map(es.push(e)) == entries_map(es).insert(e.key@, value_of(e)),
{
    let ks = keys_of(es);
    let ps = es.push(e);
    let ks2 = keys_of(ps);
    assert(ks2 =~= ks.push(e.key@));
    assert forall|a: int, b: int| 0 <= a < ks2.len() && 0 <= b < ks2.len() && a != b implies ks2[a]
        != ks2[b] by {
        if a < ks.len() && b < ks.len() {
            assert(ks2[a] == ks[a] && ks2[b] == ks[b]);
        } else if a < ks.len() {
            assert(ks2[a] == ks[a]);
        } else {
            assert(ks2[b] == ks[b]);
        }
    }
    let m = entries_map(es).insert(e.key@, value_of(e));
    let m2 = entries_map(ps);
    assert forall|k: Seq<char>| m2.dom().contains(k) <==> m.dom().contains(k) by {
        if ks.contains(k) {
            let a = choose|a: int| 0 <= a < ks.len() && ks[a] == k;
            assert(ks2[a] == k);
        }
        if ks2.contains(k) && k != e.key@ {
            let a = choose|a: int| 0 <= a < ks2.len() && ks2[a] == k;
            assert(ks[a] == k);
        }
        assert(ks2[ks.len() as int] == e.key@);
    }
    assert forall|k: Seq<char>| #[trigger] m2.dom().contains(k) implies m2[k] == m[k] by {
        let a = ks2.index_of(k);
        if a == ks.len() {
            assert(k == e.key@);
        } else {
            assert(ps[a] == es[a]);
            lemma_entries_map_at(es, a);
        }
    }
    assert(m2 =~= m);
}

proof fn lemma_entries_map_len(es: Seq<Entry>)
    requires
        keys_of(es).no_duplicates(),
    ensures
        entries_map(es).dom().finite(),
        entries_map(es).dom().len() == es.len(),
{
    let ks = keys_of(es);
    assert(entries_map(es).dom() =~= ks.to_set());
    ks.unique_seq_to_set();
    vstd::seq_lib::seq_to_set_is_finite(ks);
}

/// In-memory idempotency cache keyed by request id: replies are kept for
/// `TTL_NANOS` after they are recorded, at most `MAX_ENTRIES` at a time.
/// Its clock counts nanoseconds since the cache was made and never runs
/// backwards.
pub struct IdempotencyCache {
    entries: Vec<Entry>,
    epoch: Instant,
    latest: u64,
}

/// A reply recorded at `inserted` is handed back at `now` while no more than
/// the time to live has passed; a reading before `inserted` counts as none
/// passed, as `Instant::elapsed` saturates at zero.
pub open spec fn is_fresh(inserted: u64, now: u64) -> bool {
    now <= inserted + TTL_NANOS
}

/// The reply of a lookup of `key` at `now` in `m`, and the contents after it:
/// a fresh entry is handed back and kept; otherwise nothing is handed back and
/// any entry under `key` is dropped.
pub open spec fn lookup(m: Map<Seq<char>, (Seq<u8>, u64)>, key: Seq<char>, now: u64) -> (
    Option<Seq<u8>>,
    Map<Seq<char>, (Seq<u8>, u64)>,
) {
    if m.dom().contains(key) && is_fresh(m[key].1, now) {
        (Some(m[key].0), m)
    } else {
        (None, m.remove(key))
    }
}

/// `oldest` is an entry of `m` recorded no later than any other.
pub open spec fn is_oldest(m: Map<Seq<char>, (Seq<u8>, u64)>, oldest: Seq<char>) -> bool {
    &&& m.dom().contains(oldest)
    &&& forall|k: Seq<char>| #[trigger] m.dom().contains(k) ==> m[oldest].1 <= m[k].1
}

/// `after` is what recording `result` under `key` at `now` makes of `before`:
/// a full cache first drops one of its oldest entries, then the reply is
/// stored under `key`, replacing any earlier one.
pub open spec fn records(
    before: Map<Seq<char>, (Seq<u8>, u64)>,
    after: Map<Seq<char>, (Seq<u8>, u64)>,
    key: Seq<char>,
    result: Seq<u8>,
    now: u64,
) -> bool {
    if before.dom().len() >= MAX_ENTRIES {
        exists|oldest: Seq<char>|
            is_oldest(before, oldest) && after == before.remove(oldest).insert(key, (result, now))
    } else {
        after == before.insert(key, (result, now))
    }
}

/// The view of an optional reply.
pub open spec fn reply_view(r: Option<Vec<u8>>) -> Option<Seq<u8>> {
    match r {
        Some(v) => Some(v@),
        None => None,
    }
}

impl View for IdempotencyCache {
    type V = Map<Seq<char>, (Seq<u8>, u64)>;

    /// Each key with its reply and the clock reading at which it was recorded.
    closed spec fn view(&self) -> Map<Seq<char>, (Seq<u8>, u64)> {
        entries_map(self.entries@)
    }
}

/// Position of the entry under `key` in `es`, if any.
fn find_in(es: &Vec<Entry>, key: &String) -> (r: Option<usize>)
    ensures
        match r {
            Some(i) => i < es.len() && es@[i as int].key@ == key@,
            None => !keys_of(es@).contains(key@),
        },
{
    let mut i: usize = 0;
    while i < es.len()
        invariant
            i <= es.len(),
            forall|j: int| 0 <= j < i ==> es@[j].key@ != key@,
        decreases es.len() - i,
    {
        if es[i].key == *key {
            return Some(i);
        }
        i = i + 1;
    }
    proof {
        assert forall|j: int| 0 <= j < es.len() implies keys_of(es@)[j] != key@ by {
            assert(keys_of(es@)[j] == es@[j].key@);
        }
    }
    None
}

/// Drop from `es` one of the entries recorded earliest; an empty `es` stays
/// as it is.
fn evict_oldest_in(es: &mut Vec<Entry>)
    requires
        keys_of(old(es)@).no_duplicates(),
    ensures
        keys_of(final(es)@).no_duplicates(),
        old(es).len() == 0 ==> final(es)@ == old(es)@,
        old(es).len() > 0 ==> {
            &&& final(es).len() == old(es).len() - 1
            &&& exists|oldest: Seq<char>|
                is_oldest(entries_map(old(es)@), oldest) && entries_map(final(es)@)
                    == entries_map(old(es)@).remove(oldest)
        },
{
    if es.len() == 0 {
        return;
    }
    let mut best: usize = 0;
    let mut i: usize = 1;
    while i < es.len()
        invariant
            0 <= best < es.len(),
            1 <= i <= es.len(),
            best < i,
            forall|j: int| 0 <= j < i ==> es@[best as int].inserted <= #[trigger] es@[j].inserted,
        decreases es.len() - i,
    {
        if es[i].inserted < es[best].inserted {
            best = i;
        }
        i = i + 1;
    }
    let ghost before = es@;
    let ghost oldest = before[best as int].key@;
    proof {
        lemma_entries_map_at(before, best as int);
        assert forall|k: Seq<char>| #[trigger] entries_map(before).dom().contains(k) implies entries_map(
            before,
        )[oldest].1 <= entries_map(before)[k].1 by {
            let j = keys_of(before).index_of(k);
            assert(keys_of(before)[j] == before[j].key@);
            lemma_entries_map_at(before, j);
        }
        lemma_entries_map_remove(before, best as int);
        assert(is_oldest(entries_map(before), oldest));
    }
    es.remove(best);
    proof {
        assert(es@ == before.remove(best as int));
        assert(entries_map(es@) == entries_map(before).remove(oldest));
    }
}

impl IdempotencyCache {
    /// The cache's invariant: keys occur once, and there are at most
    /// `MAX_ENTRIES` of them.
    #[verifier::type_invariant]
    spec fn inv(&self) -> bool {
        &&& keys_of(self.entries@).no_duplicates()
        &&& self.entries.len() <= MAX_ENTRIES
    }

    /// The latest reading of the cache clock: the one its last `get` or
    /// `record` used, 0 before any.
    pub closed spec fn clock(&self) -> u64 {
        self.latest
    }

    /// An empty cache whose clock starts now.
    pub fn new() -> (c: Self)
        ensures
            c@ == Map::<Seq<char>, (Seq<u8>, u64)>::empty(),
            c.clock() == 0,
    {
        let entries: Vec<Entry> = Vec::new();
        proof {
            assert(keys_of(entries@) =~= seq![]);
        }
        let c = IdempotencyCache { entries, epoch: instant_now(), latest: 0 };
        proof {
            assert(c@ =~= Map::<Seq<char>, (Seq<u8>, u64)>::empty());
        }
        c
    }

    /// Number of keys held.
    pub fn len(&self) -> (n: usize)
        ensures
            self@.dom().finite(),
            n == self@.dom().len(),
            n <= MAX_ENTRIES,
    {
        proof {
            use_type_invariant(self);
            lemma_entries_map_len(self.entries@);
        }
        self.entries.len()
    }

    /// Whether no key is held.
    pub fn is_empty(&self) -> (b: bool)
        ensures
            b == (self@.dom().len() == 0),
    {
        proof {
            use_type_invariant(self);
            lemma_entries_map_len(self.entries@);
        }
        self.entries.len() == 0
    }

    /// Look `key` up at clock reading `now`: a fresh reply is handed back; a
    /// stale or missing one gives `None`, and the key is dropped.
    pub fn get_at(&mut self, key: &str, now: u64) -> (r: Option<Vec<u8>>)
        ensures
            (reply_view(r), final(self)@) == lookup(old(self)@, key@, now),
            final(self).clock() == old(self).clock(),
    {
        proof {
            use_type_invariant(&*self);
        }
        let k = key.to_owned();
        match find_in(&self.entries, &k) {
            Some(i) => {
                proof {
                    lemma_entries_map_at(self.entries@, i as int);
                }
                let inserted = self.entries[i].inserted;
                if now <= inserted || now - inserted <= TTL_NANOS {
                    let v = self.entries[i].result.clone();
                    proof {
                        assert(v@ =~= self.entries@[i as int].result@);
                    }
                    return Some(v);
                }
                let mut es: Vec<Entry> = Vec::new();
                proof {
                    assert(keys_of(es@) =~= seq![]);
                }
                std::mem::swap(&mut es, &mut self.entries);
                proof {
                    lemma_entries_map_remove(es@, i as int);
                }
                es.remove(i);
                self.entries = es;
                None
            },
            None => {
                proof {
                    assert(self@.remove(key@) =~= self@);
                }
                None
            },
        }
    }

    /// Drop one of the entries recorded earliest; an empty cache stays as it
    /// is.
    fn evict_oldest(&mut self)
        ensures
            old(self).entries.len() == 0 ==> *final(self) == *old(self),
            old(self).entries.len() > 0 ==> {
                &&& final(self).entries.len() == old(self).entries.len() - 1
                &&& final(self).clock() == old(self).clock()
                &&& exists|oldest: Seq<char>|
                    is_oldest(old(self)@, oldest) && final(self)@ == old(self)@.remove(oldest)
            },
    {
        proof {
            use_type_invariant(&*self);
        }
        if self.entries.len() == 0 {
            return;
        }
        let mut es: Vec<Entry> = Vec::new();
        proof {
            assert(keys_of(es@) =~= seq![]);
        }
        let ghost before = self.entries@;
        std::mem::swap(&mut es, &mut self.entries);
        assert(es@ == before);
        evict_oldest_in(&mut es);
        self.entries = es;
        proof {
            let oldest = choose|oldest: Seq<char>|
                is_oldest(entries_map(before), oldest) && entries_map(self.entries@)
                    == entries_map(before).remove(oldest);
            assert(old(self)@ == entries_map(before));
            assert(is_oldest(old(self)@, oldest) && self@ == old(self)@.remove(oldest));
        }
    }

    /// Record `result` under `key` at clock reading `now`; a full cache first
    /// drops one of its oldest entries.
    pub fn record_at(&mut self, key: String, result: Vec<u8>, now: u64)
        ensures
            records(old(self)@, final(self)@, key@, result@, now),
            final(self).clock() == old(self).clock(),
    {
        proof {
            use_type_invariant(&*self);
            lemma_entries_map_len(self.entries@);
        }
        if self.entries.len() >= MAX_ENTRIES {
            self.evict_oldest();
        }
        proof {
            use_type_invariant(&*self);
        }
        let e = Entry { key, result, inserted: now };
        let found = find_in(&self.entries, &e.key);
        let mut es: Vec<Entry> = Vec::new();
        proof {
            assert(keys_of(es@) =~= seq![]);
        }
        std::mem::swap(&mut es, &mut self.entries);
        match found {
            Some(i) => {
                proof {
                    lemma_entries_map_update(es@, i as int, e);
                }
                es.set(i, e);
            },
            None => {
                proof {
                    lemma_entries_map_push(es@, e);
                }
                es.push(e);
            },
        }
        self.entries = es;
    }

    /// Read the cache clock: the nanoseconds since the cache was made, or the
    /// latest reading if that is later, so that the clock never runs
    /// backwards.
    fn tick(&mut self) -> (now: u64)
        ensures
            now >= old(self).clock(),
            final(self).clock() == now,
            final(self)@ == old(self)@,
    {
        proof {
            use_type_invariant(&*self);
        }
        let reading = nanos_since(&self.epoch);
        let now = if reading < self.latest {
            self.latest
        } else {
            reading
        };
        self.latest = now;
        now
    }

    /// Look `key` up at the current clock reading, which becomes the cache's
    /// latest: a reply recorded no more than `TTL_NANOS` before it is handed
    /// back; otherwise `None`, and the key is dropped.
    pub fn get(&mut self, key: &str) -> (r: Option<Vec<u8>>)
        ensures
            final(self).clock() >= old(self).clock(),
            (reply_view(r), final(self)@) == lookup(old(self)@, key@, final(self).clock()),
    {
        let now = self.tick();
        self.get_at(key, now)
    }

    /// Record `result` under `key`, stamped with the current clock reading,
    /// which becomes the cache's latest.
    pub fn record(&mut self, key: String, result: Vec<u8>)
        ensures
            final(self).clock() >= old(self).clock(),
            records(old(self)@, final(self)@, key@, result@, final(self).clock()),
    {
        let now = self.tick();
        self.record_at(key, result, now)
    }
}

/// A replayed key is answered with the reply recorded under it, as long as
/// the replay comes within the time to live of the recording.
pub proof fn lemma_replay_returns_recorded(
    before: Map<Seq<char>, (Seq<u8>, u64)>,
    after: Map<Seq<char>, (Seq<u8>, u64)>,
    key: Seq<char>,
    result: Seq<u8>,
    recorded_at: u64,
    now: u64,
)
    requires
        records(before, after, key, result, recorded_at),
        is_fresh(recorded_at, now),
    ensures
        lookup(after, key, now) == (Some(result), after),
{
    if before.dom().len() >= MAX_ENTRIES {
        let oldest = choose|oldest: Seq<char>|
            is_oldest(before, oldest) && after == before.remove(oldest).insert(
                key,
                (result, recorded_at),
            );
    }
    assert(after.dom().contains(key) && after[key] == (result, recorded_at));
}

/// Once the cache clock has moved more than the time to live past a
/// recording, a lookup of its key hands back nothing and drops the key.
pub proof fn lemma_expired_after_ttl(
    before: Map<Seq<char>, (Seq<u8>, u64)>,
    after: Map<Seq<char>, (Seq<u8>, u64)>,
    key: Seq<char>,
    result: Seq<u8>,
    recorded_at: u64,
    now: u64,
)
    requires
        records(before, after, key, result, recorded_at),
        now > recorded_at + TTL_NANOS,
    ensures
        lookup(after, key, now) == (None::<Seq<u8>>, after.remove(key)),
        !lookup(after, key, now).1.dom().contains(key),
{
    if before.dom().len() >= MAX_ENTRIES {
        let oldest = choose|oldest: Seq<char>|
            is_oldest(before, oldest) && after == before.remove(oldest).insert(
                key,
                (result, recorded_at),
            );
    }
    assert(after.dom().contains(key) && after[key] == (result, recorded_at));
}

/// A key that was never recorded, or was dropped, is answered with nothing,
/// and the lookup leaves the cache as it was.
pub proof fn lemma_unknown_key_misses(m: Map<Seq<char>, (Seq<u8>, u64)>, key: Seq<char>, now: u64)
    requires
        !m.dom().contains(key),
    ensures
        lookup(m, key, now) == (None::<Seq<u8>>, m),
{
    assert(m.remove(key) =~= m);
}

/// A reply older than the time to live is not handed back, and its key is
/// dropped.
pub proof fn lemma_stale_entry_dropped(m: Map<Seq<char>, (Seq<u8>, u64)>, key: Seq<char>, now: u64)
    requires
        m.dom().contains(key),
        !is_fresh(m[key].1, now),
    ensures
        lookup(m, key, now) == (None::<Seq<u8>>, m.remove(key)),
        !lookup(m, key, now).1.dom().contains(key),
{
}

/// Looking the same key up twice at the same reading gives the same answer,
/// and the second lookup changes nothing more.
pub proof fn lemma_lookup_repeatable(m: Map<Seq<char>, (Seq<u8>, u64)>, key: Seq<char>, now: u64)
    ensures
        lookup(lookup(m, key, now).1, key, now) == lookup(m, key, now),
{
    let m1 = lookup(m, key, now).1;
    if !(m.dom().contains(key) && is_fresh(m[key].1, now)) {
        assert(m1.remove(key) =~= m1);
    }
}

/// A lookup never adds keys, and changes no reply it keeps.
pub proof fn lemma_lookup_only_drops(m: Map<Seq<char>, (Seq<u8>, u64)>, key: Seq<char>, now: u64)
    ensures
        lookup(m, key, now).1.dom().subset_of(m.dom()),
        forall|k: Seq<char>| #[trigger]
            lookup(m, key, now).1.dom().contains(k) ==> lookup(m, key, now).1[k] == m[k],
{
}

/// Recording never takes the cache past `MAX_ENTRIES` keys.
pub proof fn lemma_record_bounded(
    before: Map<Seq<char>, (Seq<u8>, u64)>,
    after: Map<Seq<char>, (Seq<u8>, u64)>,
    key: Seq<char>,
    result: Seq<u8>,
    now: u64,
)
    requires
        before.dom().finite(),
        before.dom().len() <= MAX_ENTRIES,
        records(before, after, key, result, now),
    ensures
        after.dom().finite(),
        after.dom().len() <= MAX_ENTRIES,
{
    if before.dom().len() >= MAX_ENTRIES {
        let oldest = choose|oldest: Seq<char>|
            is_oldest(before, oldest) && after == before.remove(oldest).insert(key, (result, now));
        let r = before.remove(oldest);
        assert(r.dom() =~= before.dom().remove(oldest));
        assert(r.dom().len() == before.dom().len() - 1);
        assert(after.dom() =~= r.dom().insert(key));
    } else {
        assert(after.dom() =~= before.dom().insert(key));
    }
}

/// Recording keeps every other key that it does not evict, with its reply.
pub proof fn lemma_record_keeps_others(
    before: Map<Seq<char>, (Seq<u8>, u64)>,
    after: Map<Seq<char>, (Seq<u8>, u64)>,
    key: Seq<char>,
    result: Seq<u8>,
    now: u64,
    other: Seq<char>,
)
    requires
        records(before, after, key, result, now),
        before.dom().len() < MAX_ENTRIES,
        before.dom().contains(other),
        other != key,
    ensures
        after.dom().contains(other),
        after[other] == before[other],
{
}

impl Default for IdempotencyCache {
    /// The same empty cache as `new`.
    fn default() -> (c: Self)
        ensures
            c@ == Map::<Seq<char>, (Seq<u8>, u64)>::empty(),
            c.clock() == 0,
    {
        IdempotencyCache::new()
    }
}

} // verus!
