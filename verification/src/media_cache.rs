//! The session-scoped media cache: least-recently-accessed eviction,
//! bounded by total bytes and by the number of handles.
use vstd::prelude::*;
use crate::bytes::bytes_eq;

verus! {

/// A cached media object.
pub struct MediaEntry {
    pub bytes: Vec<u8>,
    pub mime: String,
    pub width: u32,
    pub height: u32,
    pub byte_size: u32,
    /// When the entry was last read or stored, on the cache's clock
    /// (`MediaCache::now`).
    pub last_accessed: u64,
}

/// Sum of the payload sizes of `s`.
pub open spec fn sum_sizes(s: Seq<MediaEntry>) -> int
    decreases s.len(),
{
    if s.len() == 0 { 0 } else { sum_sizes(s.drop_last()) + s.last().bytes@.len() }
}

/// The payload bytes of the entries a map holds.
pub open spec fn held_bytes(m: Map<Seq<u8>, MediaEntry>) -> int
    decreases m.dom().len(),
    when m.dom().finite()
{
    if m.dom().len() == 0 {
        0
    } else {
        let k = m.dom().choose();
        m[k].bytes@.len() + held_bytes(m.remove(k))
    }
}

/// Any held entry may be counted first.
pub proof fn lemma_held_bytes_remove(m: Map<Seq<u8>, MediaEntry>, k: Seq<u8>)
    requires
        m.dom().finite(),
        m.dom().contains(k),
    ensures
        held_bytes(m) == m[k].bytes@.len() + held_bytes(m.remove(k)),
    decreases m.dom().len(),
{
    let c = m.dom().choose();
    assert(m.dom().contains(c));
    if c != k {
        let mc = m.remove(c);
        let mk = m.remove(k);
        lemma_held_bytes_remove(mc, k);
        lemma_held_bytes_remove(mk, c);
        assert(mc.remove(k) =~= mk.remove(c));
    }
}

/// The bytes held after storing `e` under `h`: the entry it replaces no
/// longer counts, `e` does.
pub proof fn lemma_held_bytes_insert(m: Map<Seq<u8>, MediaEntry>, h: Seq<u8>, e: MediaEntry)
    requires
        m.dom().finite(),
    ensures
        held_bytes(m.insert(h, e)) == held_bytes(m) - (if m.contains_key(h) { m[h].bytes@.len() as int } else { 0 }) + e.bytes@.len(),
{
    let m2 = m.insert(h, e);
    lemma_held_bytes_remove(m2, h);
    if m.contains_key(h) {
        lemma_held_bytes_remove(m, h);
        assert(m2.remove(h) =~= m.remove(h));
    } else {
        assert(m2.remove(h) =~= m);
    }
}

/// Entries `v` stored under the distinct keys `k`.
spec fn pairs_map(k: Seq<Seq<u8>>, v: Seq<MediaEntry>) -> Map<Seq<u8>, MediaEntry> {
    Map::new(|h: Seq<u8>| k.contains(h), |h: Seq<u8>| v[k.index_of(h)])
}

proof fn lemma_pairs_sum(k: Seq<Seq<u8>>, v: Seq<MediaEntry>)
    requires
        k.len() == v.len(),
        k.no_duplicates(),
    ensures
        pairs_map(k, v).dom().finite(),
        held_bytes(pairs_map(k, v)) == sum_sizes(v),
    decreases k.len(),
{
    let m = pairs_map(k, v);
    assert(m.dom() =~= k.to_set());
    vstd::seq_lib::seq_to_set_is_finite(k);
    if k.len() == 0 {
        assert(m.dom() =~= Set::<Seq<u8>>::empty());
    } else {
        let n = k.len() - 1;
        let k0 = k.drop_last();
        let v0 = v.drop_last();
        let last = k[n];
        assert forall|i: int, j: int| 0 <= i < k0.len() && 0 <= j < k0.len() && i != j implies k0[i] != k0[j] by {
            assert(k0[i] == k[i] && k0[j] == k[j]);
        }
        lemma_pairs_sum(k0, v0);
        let m0 = pairs_map(k0, v0);
        assert(!k0.contains(last)) by {
            if k0.contains(last) {
                let j = choose|j: int| 0 <= j < k0.len() && k0[j] == last;
                assert(k[j] == k[n]);
            }
        }
        assert forall|h: Seq<u8>| #[trigger] m.dom().contains(h) <==> m0.insert(last, v[n]).dom().contains(h) by {
            if k.contains(h) && h != last {
                let i = choose|i: int| 0 <= i < k.len() && k[i] == h;
                assert(i < n);
                assert(k0[i] == h);
            }
            if k0.contains(h) {
                let i = choose|i: int| 0 <= i < k0.len() && k0[i] == h;
                assert(k[i] == h);
            }
        }
        assert forall|h: Seq<u8>| m.dom().contains(h) implies #[trigger] m[h] == m0.insert(last, v[n])[h] by {
            let i = k.index_of(h);
            assert(0 <= i < k.len() && k[i] == h);
            if h == last {
                assert(i == n);
            } else {
                let j = k0.index_of(h);
                assert(k0.contains(h)) by {
                    assert(i < n);
                    assert(k0[i] == h);
                }
                assert(0 <= j < k0.len() && k0[j] == h);
                assert(k[j] == h);
                assert(i == j);
                assert(v0[j] == v[j]);
            }
        }
        assert(m =~= m0.insert(last, v[n]));
        lemma_held_bytes_insert(m0, last, v[n]);
        assert(v.drop_last() =~= v0);
    }
}

/// `e` with its access time set to `now`.
pub open spec fn touched(e: MediaEntry, now: u64) -> MediaEntry {
    MediaEntry { last_accessed: now, ..e }
}

#[verifier::external_type_specification]
#[verifier::external_body]
pub struct ExInstant(std::time::Instant);

/// The current instant of the monotonic clock (`std::time::Instant::now`).
/// Nothing is promised of the value.
#[verifier::external_body]
fn instant_now() -> std::time::Instant {
    std::time::Instant::now()
}

/// The time from `earlier` to `later` (`Instant::duration_since`, zero when
/// `later` comes first). Nothing is promised of the value.
#[verifier::external_body]
fn duration_since(later: &std::time::Instant, earlier: &std::time::Instant) -> std::time::Duration {
    later.duration_since(*earlier)
}

/// The whole nanoseconds of a duration (`Duration::as_nanos`). The
/// duration is opaque here, so nothing is promised of the value.
#[verifier::external_body]
fn duration_nanos(d: &std::time::Duration) -> u128 {
    d.as_nanos()
}

/// Media objects by handle, evicting the least recently accessed entries
/// while the total bytes or the number of entries exceed their caps.
pub struct MediaCache {
    handles: Vec<Vec<u8>>,
    entries: Vec<MediaEntry>,
    total_bytes: u64,
    cap_bytes: u64,
    cap_entries: usize,
    /// The instant the cache's clock counts from.
    started: std::time::Instant,
    /// The cache clock's latest reading.
    last_reading: u64,
}

proof fn lemma_sum_nonneg(s: Seq<MediaEntry>)
    ensures
        sum_sizes(s) >= 0,
    decreases s.len(),
{
    if s.len() > 0 {
        lemma_sum_nonneg(s.drop_last());
    }
}

proof fn lemma_sum_remove(s: Seq<MediaEntry>, i: int)
    requires
        0 <= i < s.len(),
    ensures
        sum_sizes(s.remove(i)) == sum_sizes(s) - s[i].bytes@.len(),
    decreases s.len(),
{
    if i == s.len() - 1 {
        assert(s.remove(i) =~= s.drop_last());
    } else {
        lemma_sum_remove(s.drop_last(), i);
        assert(s.remove(i).drop_last() =~= s.drop_last().remove(i));
    }
}

proof fn lemma_sum_update(s: Seq<MediaEntry>, i: int, e: MediaEntry)
    requires
        0 <= i < s.len(),
    ensures
        sum_sizes(s.update(i, e)) == sum_sizes(s) - s[i].bytes@.len() + e.bytes@.len(),
    decreases s.len(),
{
    if i == s.len() - 1 {
        assert(s.update(i, e).drop_last() =~= s.drop_last());
    } else {
        lemma_sum_update(s.drop_last(), i, e);
        assert(s.update(i, e).drop_last() =~= s.drop_last().update(i, e));
    }
}

impl MediaCache {
    /// The handles, in storage order.
    pub closed spec fn keys(self) -> Seq<Seq<u8>> {
        Seq::new(self.handles@.len(), |i: int| self.handles@[i]@)
    }

    /// The cache is consistent: one entry per distinct handle, and the byte
    /// count is the sum of the entries' payload sizes.
    pub closed spec fn wf(self) -> bool {
        &&& self.handles@.len() == self.entries@.len()
        &&& self.keys().no_duplicates()
        &&& self.total_bytes == sum_sizes(self.entries@)
    }

    /// The entries by handle.
    pub closed spec fn entry_map(self) -> Map<Seq<u8>, MediaEntry> {
        Map::new(
            |h: Seq<u8>| self.keys().contains(h),
            |h: Seq<u8>| self.entries@[self.keys().index_of(h)],
        )
    }

    /// The payload bytes held.
    pub closed spec fn total(self) -> int {
        sum_sizes(self.entries@)
    }

    pub closed spec fn byte_cap(self) -> u64 {
        self.cap_bytes
    }

    /// The cache clock's latest reading (0 before the first).
    pub closed spec fn clock(self) -> u64 {
        self.last_reading
    }

    pub closed spec fn entry_cap(self) -> usize {
        self.cap_entries
    }

    proof fn lemma_index(self, i: int)
        requires
            self.wf(),
            0 <= i < self.keys().len(),
        ensures
            self.entry_map().contains_key(self.keys()[i]),
            self.entry_map()[self.keys()[i]] == self.entries@[i],
            self.keys().index_of(self.keys()[i]) == i,
    {
        let k = self.keys();
        assert(k.contains(k[i]));
        let j = k.index_of(k[i]);
        assert(0 <= j < k.len() && k[j] == k[i]);
    }

    proof fn lemma_len(self)
        requires
            self.wf(),
        ensures
            self.entry_map().dom().finite(),
            self.entry_map().dom().len() == self.entries@.len(),
    {
        let k = self.keys();
        assert(self.entry_map().dom() =~= k.to_set());
        k.unique_seq_to_set();
        vstd::seq_lib::seq_to_set_is_finite(k);
    }
}

impl View for MediaCache {
    type V = Map<Seq<u8>, MediaEntry>;

    open spec fn view(&self) -> Map<Seq<u8>, MediaEntry> {
        self.entry_map()
    }
}

impl MediaCache {
    /// The bytes the cache counts are exactly the payload bytes of the
    /// entries it holds.
    pub proof fn lemma_total_is_held_bytes(self)
        requires
            self.wf(),
        ensures
            self@.dom().finite(),
            self.total() == held_bytes(self@),
    {
        lemma_pairs_sum(self.keys(), self.entries@);
        assert(self@ =~= pairs_map(self.keys(), self.entries@));
    }

    /// Every entry held fits within the bytes the cache counts; with the
    /// caps that `insert` meets, no entry larger than the byte cap is kept.
    pub proof fn lemma_held_entries_fit(self, h: Seq<u8>)
        requires
            self.wf(),
            self@.contains_key(h),
        ensures
            self@[h].bytes@.len() <= self.total(),
    {
        let k = self.keys();
        assert(k.contains(h));
        let i = k.index_of(h);
        self.lemma_index(i);
        lemma_sum_remove(self.entries@, i);
        lemma_sum_nonneg(self.entries@.remove(i));
    }
}

/// A read gives back what was written: once the cache holds `e` under `h`
/// (as `insert` leaves it when the entry fits), a read of `h` at `now`
/// returns `e` with only its access time changed.
pub proof fn lemma_read_gives_back_write(before: Map<Seq<u8>, MediaEntry>, h: Seq<u8>, e: MediaEntry, now: u64)
    ensures
        before.insert(h, e).contains_key(h),
        touched(before.insert(h, e)[h], now) == (MediaEntry { last_accessed: now, ..e }),
{
}

impl MediaCache {
    /// An empty cache with the given caps.
    pub fn new(cap_bytes: u64, cap_entries: usize) -> (c: Self)
        ensures
            c.wf(),
            c@ == Map::<Seq<u8>, MediaEntry>::empty(),
            c.total() == 0,
            c.byte_cap() == cap_bytes,
            c.entry_cap() == cap_entries,
            c.clock() == 0,
    {
        let c = MediaCache { handles: Vec::new(), entries: Vec::new(), total_bytes: 0, cap_bytes, cap_entries, started: instant_now(), last_reading: 0 };
        assert(c.entry_map() =~= Map::<Seq<u8>, MediaEntry>::empty());
        c
    }

    /// The payload bytes held.
    pub fn total_bytes(&self) -> (r: u64)
        requires
            self.wf(),
        ensures
            r == self.total(),
    {
        self.total_bytes
    }

    /// The number of handles held.
    pub fn len(&self) -> (r: usize)
        requires
            self.wf(),
        ensures
            r == self@.dom().len(),
    {
        proof { self.lemma_len(); }
        self.entries.len()
    }

    /// Removes every entry.
    pub fn clear(&mut self)
        requires
            old(self).wf(),
        ensures
            final(self).wf(),
            final(self)@ == Map::<Seq<u8>, MediaEntry>::empty(),
            final(self).total() == 0,
            final(self).byte_cap() == old(self).byte_cap(),
            final(self).entry_cap() == old(self).entry_cap(),
            final(self).clock() == old(self).clock(),
    {
        self.handles.clear();
        self.entries.clear();
        self.total_bytes = 0;
        assert(self.entry_map() =~= Map::<Seq<u8>, MediaEntry>::empty());
        assert(self.keys() =~= Seq::<Seq<u8>>::empty());
    }

    /// The storage index of `handle`.
    fn position(&self, handle: &[u8]) -> (r: Option<usize>)
        requires
            self.wf(),
        ensures
            r is None ==> !self@.contains_key(handle@),
            r matches Some(i) ==> i < self.keys().len() && self.keys()[i as int] == handle@,
    {
        let mut i: usize = 0;
        while i < self.handles.len()
            invariant
                self.wf(),
                i <= self.handles@.len(),
                forall|j: int| 0 <= j < i ==> self.keys()[j] != handle@,
            decreases self.handles@.len() - i,
        {
            if bytes_eq(self.handles[i].as_slice(), handle) {
                return Some(i);
            }
            i = i + 1;
        }
        None
    }
}

/// `k` was held in `before` and is no longer held in `after`.
pub open spec fn evicted(before: Map<Seq<u8>, MediaEntry>, after: Map<Seq<u8>, MediaEntry>, k: Seq<u8>) -> bool {
    before.contains_key(k) && !after.contains_key(k)
}

/// No evicted entry was accessed more recently than any entry still held.
pub open spec fn evicted_least_recent(before: Map<Seq<u8>, MediaEntry>, after: Map<Seq<u8>, MediaEntry>) -> bool {
    forall|k: Seq<u8>, k2: Seq<u8>|
        #![trigger evicted(before, after, k), after.contains_key(k2)]
        evicted(before, after, k) && after.contains_key(k2) ==> before[k].last_accessed <= after[k2].last_accessed
}

/// Eviction stopped as soon as the caps were met: the most recently
/// accessed evicted entry would not have fitted back in.
pub open spec fn eviction_minimal(
    before: Map<Seq<u8>, MediaEntry>,
    after: Map<Seq<u8>, MediaEntry>,
    after_total: int,
    cap_bytes: u64,
    cap_entries: usize,
) -> bool {
    (exists|k: Seq<u8>| #[trigger] evicted(before, after, k)) ==> exists|x: Seq<u8>| {
        &&& #[trigger] evicted(before, after, x)
        &&& forall|k: Seq<u8>| #[trigger] evicted(before, after, k) ==> before[k].last_accessed <= before[x].last_accessed
        &&& (after_total + before[x].bytes@.len() > cap_bytes || after.dom().len() + 1 > cap_entries)
    }
}

impl MediaCache {
    proof fn lemma_after_remove(old: MediaCache, new: MediaCache, i: int)
        requires
            old.wf(),
            0 <= i < old.entries@.len(),
            new.handles@ == old.handles@.remove(i),
            new.entries@ == old.entries@.remove(i),
            new.total_bytes == old.total_bytes - old.entries@[i].bytes@.len(),
        ensures
            new.wf(),
            new@ == old@.remove(old.keys()[i]),
            new.total() == old.total() - old.entries@[i].bytes@.len(),
    {
        let ko = old.keys();
        let kn = new.keys();
        assert(kn =~= ko.remove(i));
        assert forall|a: int, b: int| 0 <= a < kn.len() && 0 <= b < kn.len() && a != b implies kn[a] != kn[b] by {
            let oa = if a < i { a } else { a + 1 };
            let ob = if b < i { b } else { b + 1 };
            assert(kn[a] == ko[oa] && kn[b] == ko[ob]);
        }
        lemma_sum_remove(old.entries@, i);
        old.lemma_index(i);
        assert forall|h: Seq<u8>| #[trigger] new@.contains_key(h) <==> old@.remove(ko[i]).contains_key(h) by {
            if kn.contains(h) {
                let a = kn.index_of(h);
                let oa = if a < i { a } else { a + 1 };
                assert(ko[oa] == h);
                assert(ko.contains(h));
                assert(oa != i);
            }
            if ko.contains(h) && h != ko[i] {
                let a = ko.index_of(h);
                assert(a != i);
                let na = if a < i { a } else { a - 1 };
                assert(kn[na] == h);
            }
        }
        assert forall|h: Seq<u8>| new@.contains_key(h) implies #[trigger] new@[h] == old@.remove(ko[i])[h] by {
            let a = kn.index_of(h);
            new.lemma_index(a);
            let oa = if a < i { a } else { a + 1 };
            old.lemma_index(oa);
        }
        assert(new@ =~= old@.remove(ko[i]));
    }

    proof fn lemma_after_update(old: MediaCache, new: MediaCache, i: int, e: MediaEntry)
        requires
            old.wf(),
            0 <= i < old.entries@.len(),
            new.handles@ == old.handles@,
            new.entries@ == old.entries@.update(i, e),
            new.total_bytes == old.total_bytes - old.entries@[i].bytes@.len() + e.bytes@.len(),
        ensures
            new.wf(),
            new@ == old@.insert(old.keys()[i], e),
            new.total() == old.total() - old.entries@[i].bytes@.len() + e.bytes@.len(),
    {
        let ko = old.keys();
        assert(new.keys() =~= ko);
        lemma_sum_update(old.entries@, i, e);
        old.lemma_index(i);
        assert forall|h: Seq<u8>| new@.contains_key(h) implies #[trigger] new@[h] == old@.insert(ko[i], e)[h] by {
            let a = ko.index_of(h);
            new.lemma_index(a);
            old.lemma_index(a);
        }
        assert(new@ =~= old@.insert(ko[i], e));
    }

    proof fn lemma_after_push(old: MediaCache, new: MediaCache, h: Seq<u8>, e: MediaEntry)
        requires
            old.wf(),
            !old@.contains_key(h),
            new.handles@.len() == old.handles@.len() + 1,
            new.handles@.drop_last() == old.handles@,
            new.handles@.last()@ == h,
            new.entries@ == old.entries@.push(e),
            new.total_bytes == old.total_bytes + e.bytes@.len(),
        ensures
            new.wf(),
            new@ == old@.insert(h, e),
            new.total() == old.total() + e.bytes@.len(),
    {
        let ko = old.keys();
        let kn = new.keys();
        assert(kn =~= ko.push(h));
        assert forall|a: int, b: int| 0 <= a < kn.len() && 0 <= b < kn.len() && a != b implies kn[a] != kn[b] by {
            if a == ko.len() {
                assert(!ko.contains(h));
                assert(kn[b] == ko[b]);
            } else if b == ko.len() {
                assert(!ko.contains(h));
                assert(kn[a] == ko[a]);
            }
        }
        assert(new.entries@.drop_last() =~= old.entries@);
        new.lemma_index(ko.len() as int);
        assert forall|k: Seq<u8>| #[trigger] new@.contains_key(k) <==> old@.insert(h, e).contains_key(k) by {
            if kn.contains(k) && k != h {
                let a = kn.index_of(k);
                assert(ko[a] == k);
            }
            if ko.contains(k) {
                let a = ko.index_of(k);
                assert(kn[a] == k);
            }
        }
        assert forall|k: Seq<u8>| new@.contains_key(k) implies #[trigger] new@[k] == old@.insert(h, e)[k] by {
            if k != h {
                let a = kn.index_of(k);
                new.lemma_index(a);
                old.lemma_index(a);
            }
        }
        assert(new@ =~= old@.insert(h, e));
    }

    /// Removes the entry stored at `i`.
    fn remove_at(&mut self, i: usize)
        requires
            old(self).wf(),
            i < old(self).entries@.len(),
        ensures
            final(self).wf(),
            final(self)@ == old(self)@.remove(old(self).keys()[i as int]),
            final(self).total() == old(self).total() - old(self).entries@[i as int].bytes@.len(),
            final(self).cap_bytes == old(self).cap_bytes,
            final(self).cap_entries == old(self).cap_entries,
            final(self).clock() == old(self).clock(),
    {
        let ghost before = *self;
        proof { lemma_sum_remove(self.entries@, i as int); lemma_sum_nonneg(self.entries@.remove(i as int)); }
        self.handles.remove(i);
        let removed = self.entries.remove(i);
        self.total_bytes = self.total_bytes - removed.bytes.len() as u64;
        proof { MediaCache::lemma_after_remove(before, *self, i as int); }
    }

    /// The storage index of the least recently accessed entry.
    fn oldest_index(&self) -> (r: usize)
        requires
            self.wf(),
            self.entries@.len() > 0,
        ensures
            r < self.entries@.len(),
            forall|j: int| 0 <= j < self.entries@.len() ==> self.entries@[r as int].last_accessed <= #[trigger] self.entries@[j].last_accessed,
    {
        let mut best: usize = 0;
        let mut i: usize = 1;
        while i < self.entries.len()
            invariant
                1 <= i <= self.entries@.len(),
                best < i,
                forall|j: int| 0 <= j < i ==> self.entries@[best as int].last_accessed <= #[trigger] self.entries@[j].last_accessed,
            decreases self.entries@.len() - i,
        {
            if self.entries[i].last_accessed < self.entries[best].last_accessed {
                best = i;
            }
            i = i + 1;
        }
        best
    }

    /// Evicts least recently accessed entries until both caps are met.
    fn evict_to_cap(&mut self)
        requires
            old(self).wf(),
        ensures
            final(self).wf(),
            final(self).cap_bytes == old(self).cap_bytes,
            final(self).cap_entries == old(self).cap_entries,
            final(self)@.submap_of(old(self)@),
            final(self).total() <= final(self).cap_bytes,
            final(self)@.dom().len() <= final(self).cap_entries,
            evicted_least_recent(old(self)@, final(self)@),
            eviction_minimal(old(self)@, final(self)@, final(self).total(), final(self).cap_bytes, final(self).cap_entries),
            old(self).total() <= old(self).cap_bytes && old(self)@.dom().len() <= old(self).cap_entries
                ==> final(self)@ == old(self)@ && final(self).total() == old(self).total(),
            final(self).clock() == old(self).clock(),
    {
        let ghost m0 = self@;
        let ghost mut last: Seq<u8> = Seq::empty();
        proof { self.lemma_len(); }
        while self.total_bytes > self.cap_bytes || self.entries.len() > self.cap_entries
            invariant
                self.wf(),
                self.cap_bytes == old(self).cap_bytes,
                self.cap_entries == old(self).cap_entries,
                self.last_reading == old(self).last_reading,
                m0 == old(self)@,
                self@.submap_of(m0),
                self@.dom().len() == self.entries@.len(),
                evicted_least_recent(m0, self@),
                (exists|k: Seq<u8>| #[trigger] evicted(m0, self@, k)) ==> {
                    &&& evicted(m0, self@, last)
                    &&& forall|k: Seq<u8>| #[trigger] evicted(m0, self@, k) ==> m0[k].last_accessed <= m0[last].last_accessed
                    &&& (self.total() + m0[last].bytes@.len() > self.cap_bytes || self@.dom().len() + 1 > self.cap_entries)
                },
                (exists|k: Seq<u8>| #[trigger] evicted(m0, self@, k)) || (self.total() == old(self).total() && self@ == m0),
                (exists|k: Seq<u8>| #[trigger] evicted(m0, self@, k))
                    ==> !(old(self).total() <= old(self).cap_bytes && old(self)@.dom().len() <= old(self).cap_entries),
            decreases self.entries@.len(),
        {
            proof {
                if self.entries@.len() == 0 {
                    assert(self.total() == 0);
                }
            }
            let ghost had_evicted = exists|k: Seq<u8>| #[trigger] evicted(m0, self@, k);
            let i = self.oldest_index();
            let ghost before = *self;
            let ghost x = self.keys()[i as int];
            proof { before.lemma_index(i as int); }
            self.remove_at(i);
            proof {
                self.lemma_len();
                let m = before@;
                let m2 = self@;
                assert(m2 == m.remove(x));
                assert(evicted(m0, m2, x));
                assert forall|k: Seq<u8>, k2: Seq<u8>|
                    evicted(m0, m2, k) && m2.contains_key(k2) implies m0[k].last_accessed <= m2[k2].last_accessed by {
                    let j = before.keys().index_of(k2);
                    assert(before.keys().contains(k2));
                    before.lemma_index(j);
                    if k != x {
                        assert(evicted(m0, m, k));
                        assert(m.contains_key(k2));
                    }
                }
                assert forall|k: Seq<u8>| #[trigger] evicted(m0, m2, k) implies m0[k].last_accessed <= m0[x].last_accessed by {
                    if k != x {
                        assert(evicted(m0, m, k));
                        assert(m.contains_key(x));
                    }
                }
                if !had_evicted {
                    assert(before@ == m0);
                }
                last = x;
            }
        }
    }

    /// Reads an entry and stamps it as accessed at `now`.
    pub fn get_at(&mut self, handle: &[u8], now: u64) -> (r: Option<&MediaEntry>)
        requires
            old(self).wf(),
        ensures
            final(self).wf(),
            final(self).total() == old(self).total(),
            final(self).byte_cap() == old(self).byte_cap(),
            final(self).entry_cap() == old(self).entry_cap(),
            !old(self)@.contains_key(handle@) ==> r is None && final(self)@ == old(self)@,
            old(self)@.contains_key(handle@) ==> {
                &&& final(self)@ == old(self)@.insert(handle@, touched(old(self)@[handle@], now))
                &&& r matches Some(e) && *e == touched(old(self)@[handle@], now)
            },
            final(self).clock() == old(self).clock(),
    {
        match self.position(handle) {
            None => None,
            Some(i) => {
                let ghost before = *self;
                proof { before.lemma_index(i as int); }
                let mut e = self.entries.remove(i);
                e.last_accessed = now;
                self.entries.insert(i, e);
                proof {
                    assert(self.entries@ =~= before.entries@.update(i as int, touched(before.entries@[i as int], now)));
                    MediaCache::lemma_after_update(before, *self, i as int, touched(before.entries@[i as int], now));
                    self.lemma_index(i as int);
                }
                Some(&self.entries[i])
            },
        }
    }

    /// The cache's clock: nanoseconds since the cache was created, on the
    /// monotonic clock. Each reading is later than the one before: by a
    /// nanosecond where the clock has not advanced since (and the largest
    /// `u64` once nothing later fits).
    pub fn now(&mut self) -> (r: u64)
        ensures
            r > old(self).clock() || (old(self).clock() == u64::MAX && r == u64::MAX),
            final(self).clock() == r,
            final(self)@ == old(self)@,
            final(self).total() == old(self).total(),
            final(self).byte_cap() == old(self).byte_cap(),
            final(self).entry_cap() == old(self).entry_cap(),
            old(self).wf() ==> final(self).wf(),
    {
        let since = duration_since(&instant_now(), &self.started);
        let nanos = duration_nanos(&since);
        let reading: u64 = if nanos > u64::MAX as u128 { u64::MAX } else { nanos as u64 };
        let r = if reading > self.last_reading {
            reading
        } else if self.last_reading < u64::MAX {
            self.last_reading + 1
        } else {
            u64::MAX
        };
        self.last_reading = r;
        r
    }

    /// Reads an entry and stamps it as accessed now, with a reading of the
    /// cache clock later than any before.
    pub fn get(&mut self, handle: &Vec<u8>) -> (r: Option<&MediaEntry>)
        requires
            old(self).wf(),
        ensures
            final(self).wf(),
            final(self).total() == old(self).total(),
            final(self).byte_cap() == old(self).byte_cap(),
            final(self).entry_cap() == old(self).entry_cap(),
            final(self).clock() > old(self).clock() || (old(self).clock() == u64::MAX && final(self).clock() == u64::MAX),
            !old(self)@.contains_key(handle@) ==> r is None && final(self)@ == old(self)@,
            old(self)@.contains_key(handle@) ==> {
                &&& final(self)@ == old(self)@.insert(handle@, touched(old(self)@[handle@], final(self).clock()))
                &&& r matches Some(e) && *e == touched(old(self)@[handle@], final(self).clock())
            },
    {
        let now = self.now();
        self.get_at(handle.as_slice(), now)
    }

    /// Stores `entry` under `handle` (replacing any previous entry), then
    /// evicts least recently accessed entries until the caps are met.
    pub fn insert(&mut self, handle: Vec<u8>, entry: MediaEntry)
        requires
            old(self).wf(),
            old(self).total() + entry.bytes@.len() <= u64::MAX,
        ensures
            final(self).wf(),
            final(self).byte_cap() == old(self).byte_cap(),
            final(self).entry_cap() == old(self).entry_cap(),
            final(self)@.submap_of(old(self)@.insert(handle@, entry)),
            final(self).total() <= final(self).byte_cap(),
            final(self)@.dom().len() <= final(self).entry_cap(),
            evicted_least_recent(old(self)@.insert(handle@, entry), final(self)@),
            eviction_minimal(old(self)@.insert(handle@, entry), final(self)@, final(self).total(), final(self).byte_cap(), final(self).entry_cap()),
            ({
                let stored = old(self).total() - (if old(self)@.contains_key(handle@) { old(self)@[handle@].bytes@.len() as int } else { 0 }) + entry.bytes@.len();
                stored <= old(self).byte_cap() && old(self)@.insert(handle@, entry).dom().len() <= old(self).entry_cap()
                    ==> final(self)@ == old(self)@.insert(handle@, entry) && final(self).total() == stored
            }),
            final(self)@.dom().finite(),
            final(self).total() == held_bytes(final(self)@),
            final(self).clock() == old(self).clock(),
    {
        let ghost before = *self;
        let ghost h = handle@;
        let ghost e = entry;
        proof { lemma_sum_nonneg(self.entries@); }
        let ghost old_total = before.total();
        match self.position(handle.as_slice()) {
            Some(i) => {
                proof {
                    before.lemma_index(i as int);
                    lemma_sum_update(self.entries@, i as int, entry);
                    lemma_sum_nonneg(self.entries@.update(i as int, entry));
                    lemma_sum_remove(self.entries@, i as int);
                    lemma_sum_nonneg(self.entries@.remove(i as int));
                }
                let old_len = self.entries[i].bytes.len() as u64;
                let new_len = entry.bytes.len() as u64;
                self.entries.remove(i);
                self.entries.insert(i, entry);
                self.total_bytes = self.total_bytes - old_len + new_len;
                proof {
                    assert(self.entries@ =~= before.entries@.update(i as int, e));
                    MediaCache::lemma_after_update(before, *self, i as int, e);
                }
            },
            None => {
                let new_len = entry.bytes.len() as u64;
                self.handles.push(handle);
                self.entries.push(entry);
                self.total_bytes = self.total_bytes + new_len;
                proof {
                    assert(self.handles@.drop_last() =~= before.handles@);
                    MediaCache::lemma_after_push(before, *self, h, e);
                }
            },
        }
        proof { self.lemma_len(); }
        self.evict_to_cap();
        proof { self.lemma_total_is_held_bytes(); }
    }
}

} // verus!
