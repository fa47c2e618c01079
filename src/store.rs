//! The dedup store: which member ids have been scheduled for delivery, and
//! when (seconds since the epoch). A record is dropped once it is older than
//! the retention window, whether or not it was looked at meanwhile.
use vstd::prelude::*;

verus! {

/// Records older than this many seconds (a week) are dropped.
pub const RETENTION_SECS: u64 = 604800;

/// `now - at` exceeds `window`.
pub open spec fn expired(at: u64, now: u64, window: u64) -> bool {
    now - at > window
}

pub open spec fn has_key(s: Seq<(i64, u64)>, k: i64) -> bool {
    exists|i: int| 0 <= i < s.len() && #[trigger] s[i].0 == k
}

pub open spec fn time_of(s: Seq<(i64, u64)>, k: i64) -> u64 {
    s[choose|i: int| 0 <= i < s.len() && #[trigger] s[i].0 == k].1
}

pub open spec fn records_map(s: Seq<(i64, u64)>) -> Map<i64, u64> {
    Map::new(|k: i64| has_key(s, k), |k: i64| time_of(s, k))
}

pub open spec fn unique_keys(s: Seq<(i64, u64)>) -> bool {
    forall|i: int, j: int| 0 <= i < j < s.len() ==> s[i].0 != s[j].0
}

proof fn lemma_time_at(s: Seq<(i64, u64)>, i: int)
    requires
        unique_keys(s),
        0 <= i < s.len(),
    ensures
        records_map(s).contains_key(s[i].0),
        records_map(s)[s[i].0] == s[i].1,
{
    assert(has_key(s, s[i].0));
    let j = choose|j: int| 0 <= j < s.len() && #[trigger] s[j].0 == s[i].0;
    assert(j == i);
}

/// Member ids with the time each was recorded; each id at most once.
pub struct DB {
    records: Vec<(i64, u64)>,
}

impl View for DB {
    type V = Map<i64, u64>;

    closed spec fn view(&self) -> Map<i64, u64> {
        records_map(self.records@)
    }
}

impl DB {
    /// Each id has at most one record.
    pub closed spec fn wf(&self) -> bool {
        unique_keys(self.records@)
    }

    /// An empty store.
    pub fn init() -> (r: DB)
        ensures
            r.wf(),
            r@ == Map::<i64, u64>::empty(),
    {
        let r = DB { records: Vec::new() };
        assert(r@ =~= Map::<i64, u64>::empty());
        r
    }

    fn position(&self, key: i64) -> (r: Option<usize>)
        ensures
            match r {
                Some(i) => i < self.records@.len() && self.records@[i as int].0 == key,
                None => !has_key(self.records@, key),
            },
    {
        let mut i: usize = 0;
        while i < self.records.len()
            invariant
                i <= self.records@.len(),
                forall|j: int| 0 <= j < i ==> self.records@[j].0 != key,
            decreases self.records@.len() - i,
        {
            if self.records[i].0 == key {
                return Some(i);
            }
            i += 1;
        }
        None
    }

    /// Whether `key` has a record.
    pub fn contains(&self, key: i64) -> (r: bool)
        ensures
            r == self@.contains_key(key),
    {
        self.position(key).is_some()
    }

    /// The time recorded for `key`, if any.
    pub fn recorded_at(&self, key: i64) -> (r: Option<u64>)
        requires
            self.wf(),
        ensures
            match r {
                Some(t) => self@.contains_key(key) && self@[key] == t,
                None => !self@.contains_key(key),
            },
    {
        match self.position(key) {
            Some(i) => {
                proof {
                    lemma_time_at(self.records@, i as int);
                }
                Some(self.records[i].1)
            },
            None => None,
        }
    }

    /// Records `key` at time `now`; a key recorded before gets the new time.
    pub fn insert(&mut self, key: i64, now: u64)
        requires
            old(self).wf(),
        ensures
            final(self).wf(),
            final(self)@ == old(self)@.insert(key, now),
    {
        let ghost before = self.records@;
        match self.position(key) {
            Some(i) => {
                self.records.set(i, (key, now));
                let ghost after = self.records@;
                assert(unique_keys(after)) by {
                    assert forall|a: int, b: int| 0 <= a < b < after.len() implies after[a].0
                        != after[b].0 by {
                        assert(before[a].0 != before[b].0);
                    }
                }
                assert forall|k: i64| has_key(after, k) == (has_key(before, k) || k == key) by {
                    if has_key(before, k) {
                        let j = choose|j: int| 0 <= j < before.len() && #[trigger] before[j].0 == k;
                        assert(after[j].0 == k);
                    }
                    if has_key(after, k) {
                        let j = choose|j: int| 0 <= j < after.len() && #[trigger] after[j].0 == k;
                        assert(before[j].0 == k);
                    }
                }
                assert forall|k: i64| has_key(after, k) implies records_map(after)[k] == (
                if k == key {
                    now
                } else {
                    records_map(before)[k]
                }) by {
                    let j = choose|j: int| 0 <= j < after.len() && #[trigger] after[j].0 == k;
                    lemma_time_at(after, j);
                    if k != key {
                        lemma_time_at(before, j);
                    }
                }
                assert(records_map(after) =~= records_map(before).insert(key, now));
            },
            None => {
                self.records.push((key, now));
                let ghost after = self.records@;
                assert(unique_keys(after));
                assert forall|k: i64| has_key(after, k) == (has_key(before, k) || k == key) by {
                    if has_key(before, k) {
                        let j = choose|j: int| 0 <= j < before.len() && #[trigger] before[j].0 == k;
                        assert(after[j].0 == k);
                    }
                    if k == key {
                        assert(after[before.len() as int].0 == k);
                    }
                }
                assert forall|k: i64| has_key(after, k) implies records_map(after)[k] == (
                if k == key {
                    now
                } else {
                    records_map(before)[k]
                }) by {
                    let j = choose|j: int| 0 <= j < after.len() && #[trigger] after[j].0 == k;
                    lemma_time_at(after, j);
                    if k != key {
                        lemma_time_at(before, j);
                    }
                }
                assert(records_map(after) =~= records_map(before).insert(key, now));
            },
        }
    }

    /// Drops every record older than `window` seconds at time `now` and
    /// returns the ids dropped.
    pub fn evict_older_than(&mut self, window: u64, now: u64) -> (r: Vec<i64>)
        requires
            old(self).wf(),
        ensures
            final(self).wf(),
            forall|k: i64|
                #[trigger] final(self)@.contains_key(k) == (old(self)@.contains_key(k)
                    && !expired(old(self)@[k], now, window)),
            forall|k: i64| #[trigger]
                final(self)@.contains_key(k) ==> final(self)@[k] == old(self)@[k],
            forall|k: i64|
                #[trigger] r@.contains(k) == (old(self)@.contains_key(k) && expired(
                    old(self)@[k],
                    now,
                    window,
                )),
            r@.no_duplicates(),
    {
        let ghost before = self.records@;
        let mut kept: Vec<(i64, u64)> = Vec::new();
        let mut gone: Vec<i64> = Vec::new();
        let mut i: usize = 0;
        while i < self.records.len()
            invariant
                before == self.records@,
                unique_keys(before),
                i <= before.len(),
                unique_keys(kept@),
                gone@.no_duplicates(),
                forall|k: i64|
                    has_key(kept@, k) == (exists|j: int|
                        0 <= j < i && #[trigger] before[j].0 == k && !expired(
                            before[j].1,
                            now,
                            window,
                        )),
                forall|a: int| #![trigger kept@[a]] 0 <= a < kept@.len() ==> exists|j: int| 0 <= j < i && #[trigger] before[j] == kept@[a],
                forall|k: i64|
                    gone@.contains(k) == (exists|j: int|
                        0 <= j < i && #[trigger] before[j].0 == k && expired(
                            before[j].1,
                            now,
                            window,
                        )),
            decreases before.len() - i,
        {
            let rec = self.records[i];
            let ghost old_kept = kept@;
            let ghost old_gone = gone@;
            if now >= rec.1 && now - rec.1 > window {
                assert(!gone@.contains(rec.0)) by {
                    if gone@.contains(rec.0) {
                        let j = choose|j: int| 0 <= j < i && #[trigger] before[j].0 == rec.0 && expired(before[j].1, now, window);
                        assert(before[j].0 != before[i as int].0);
                    }
                }
                gone.push(rec.0);
                assert forall|k: i64| gone@.contains(k) == (exists|j: int|
                        0 <= j < i + 1 && #[trigger] before[j].0 == k && expired(
                            before[j].1,
                            now,
                            window,
                        )) by {
                    if k == rec.0 {
                        assert(gone@[old_gone.len() as int] == k);
                        assert(before[i as int].0 == k);
                    } else {
                        if gone@.contains(k) {
                            let a = choose|a: int| 0 <= a < gone@.len() && gone@[a] == k;
                            assert(old_gone[a] == k);
                            assert(old_gone.contains(k));
                        }
                        if old_gone.contains(k) {
                            let a = choose|a: int| 0 <= a < old_gone.len() && old_gone[a] == k;
                            assert(gone@[a] == k);
                        }
                        if exists|j: int| 0 <= j < i + 1 && #[trigger] before[j].0 == k && expired(before[j].1, now, window) {
                            let j = choose|j: int| 0 <= j < i + 1 && #[trigger] before[j].0 == k && expired(before[j].1, now, window);
                            assert(j < i);
                        }
                    }
                }
            } else {
                assert(!has_key(kept@, rec.0)) by {
                    if has_key(kept@, rec.0) {
                        let j = choose|j: int| 0 <= j < i && #[trigger] before[j].0 == rec.0 && !expired(before[j].1, now, window);
                        assert(before[j].0 != before[i as int].0);
                    }
                }
                kept.push(rec);
                assert(unique_keys(kept@)) by {
                    assert forall|a: int, b: int| 0 <= a < b < kept@.len() implies kept@[a].0
                        != kept@[b].0 by {
                        if b == old_kept.len() {
                            assert(kept@[a] == old_kept[a]);
                            assert(has_key(old_kept, kept@[a].0));
                        } else {
                            assert(old_kept[a].0 != old_kept[b].0);
                        }
                    }
                }
                assert forall|a: int| #![trigger kept@[a]] 0 <= a < kept@.len() implies exists|j: int| 0 <= j < i + 1 && #[trigger] before[j] == kept@[a] by {
                    if a == old_kept.len() {
                        assert(before[i as int] == kept@[a]);
                    } else {
                        assert(kept@[a] == old_kept[a]);
                    }
                }
                assert forall|k: i64| has_key(kept@, k) == (exists|j: int|
                        0 <= j < i + 1 && #[trigger] before[j].0 == k && !expired(
                            before[j].1,
                            now,
                            window,
                        )) by {
                    if k == rec.0 {
                        assert(kept@[old_kept.len() as int].0 == k);
                        assert(before[i as int].0 == k);
                    } else {
                        if has_key(kept@, k) {
                            let a = choose|a: int| 0 <= a < kept@.len() && #[trigger] kept@[a].0 == k;
                            assert(old_kept[a].0 == k);
                            assert(has_key(old_kept, k));
                        }
                        if has_key(old_kept, k) {
                            let a = choose|a: int| 0 <= a < old_kept.len() && #[trigger] old_kept[a].0 == k;
                            assert(kept@[a].0 == k);
                        }
                        if exists|j: int| 0 <= j < i + 1 && #[trigger] before[j].0 == k && !expired(before[j].1, now, window) {
                            let j = choose|j: int| 0 <= j < i + 1 && #[trigger] before[j].0 == k && !expired(before[j].1, now, window);
                            assert(j < i);
                        }
                    }
                }
            }
            i += 1;
        }
        assert forall|k: i64| #[trigger] records_map(kept@).contains_key(k) == (records_map(before).contains_key(k)
            && !expired(records_map(before)[k], now, window)) by {
            if has_key(before, k) {
                let j = choose|j: int| 0 <= j < before.len() && #[trigger] before[j].0 == k;
                lemma_time_at(before, j);
            }
        }
        assert forall|k: i64| #[trigger] records_map(kept@).contains_key(k) implies records_map(kept@)[k] == records_map(before)[k] by {
            let a = choose|a: int| 0 <= a < kept@.len() && #[trigger] kept@[a].0 == k;
            lemma_time_at(kept@, a);
            let j = choose|j: int| 0 <= j < before.len() && #[trigger] before[j] == kept@[a];
            lemma_time_at(before, j);
        }
        assert forall|k: i64| #[trigger] gone@.contains(k) == (records_map(before).contains_key(k)
            && expired(records_map(before)[k], now, window)) by {
            if has_key(before, k) {
                let j = choose|j: int| 0 <= j < before.len() && #[trigger] before[j].0 == k;
                lemma_time_at(before, j);
            }
        }
        self.records = kept;
        gone
    }

    /// Drops every record older than the retention window at time `now`.
    pub fn auto_remove(&mut self, now: u64) -> (r: Vec<i64>)
        requires
            old(self).wf(),
        ensures
            final(self).wf(),
            forall|k: i64|
                #[trigger] final(self)@.contains_key(k) == (old(self)@.contains_key(k)
                    && !expired(old(self)@[k], now, RETENTION_SECS)),
            forall|k: i64| #[trigger]
                final(self)@.contains_key(k) ==> final(self)@[k] == old(self)@[k],
            forall|k: i64|
                #[trigger] r@.contains(k) == (old(self)@.contains_key(k) && expired(
                    old(self)@[k],
                    now,
                    RETENTION_SECS,
                )),
    {
        self.evict_older_than(RETENTION_SECS, now)
    }
}

/// A key recorded at `at` and then subject to an eviction at `now` with
/// window `window` stays exactly when `now - at` does not exceed the window.
pub proof fn lemma_evict_after_insert(
    store: Map<i64, u64>,
    key: i64,
    at: u64,
    now: u64,
    window: u64,
)
    ensures
        store.insert(key, at).contains_key(key),
        (store.insert(key, at).contains_key(key) && !expired(store.insert(key, at)[key], now, window))
            == (now - at <= window),
{
}

/// A key just recorded is present, and an eviction with a zero window run
/// any later second removes it.
pub proof fn lemma_insert_then_evict(store: Map<i64, u64>, key: i64, at: u64, now: u64)
    requires
        now > at,
    ensures
        store.insert(key, at).contains_key(key),
        expired(store.insert(key, at)[key], now, 0),
{
}

/// `256` to the power `n`.
pub open spec fn pow256(n: nat) -> nat
    decreases n,
{
    if n == 0 {
        1
    } else {
        256 * pow256((n - 1) as nat)
    }
}

/// The number that bytes `b` spell, most significant first.
pub open spec fn be_value(b: Seq<u8>) -> nat
    decreases b.len(),
{
    if b.len() == 0 {
        0
    } else {
        be_value(b.drop_last()) * 256 + b.last() as nat
    }
}

/// The `n` lowest bytes of `t`, most significant first.
pub open spec fn be_bytes(t: nat, n: nat) -> Seq<u8>
    decreases n,
{
    if n == 0 {
        Seq::empty()
    } else {
        be_bytes(t / 256, (n - 1) as nat).push((t % 256) as u8)
    }
}

proof fn lemma_pow256_8()
    ensures
        pow256(8) == 0x1_0000_0000_0000_0000,
{
    assert(pow256(0) == 1);
    assert(pow256(1) == 0x100);
    assert(pow256(2) == 0x1_0000);
    assert(pow256(3) == 0x100_0000);
    assert(pow256(4) == 0x1_0000_0000);
    assert(pow256(5) == 0x100_0000_0000);
    assert(pow256(6) == 0x1_0000_0000_0000);
    assert(pow256(7) == 0x100_0000_0000_0000);
}

proof fn lemma_be_round_trip(t: nat, n: nat)
    requires
        t < pow256(n),
    ensures
        be_bytes(t, n).len() == n,
        be_value(be_bytes(t, n)) == t,
    decreases n,
{
    if n > 0 {
        let p = pow256((n - 1) as nat);
        assert(t / 256 < p) by (nonlinear_arith)
            requires
                t < 256 * p,
        ;
        lemma_be_round_trip(t / 256, (n - 1) as nat);
        assert(be_bytes(t, n).drop_last() =~= be_bytes(t / 256, (n - 1) as nat));
        assert((t / 256) * 256 + t % 256 == t) by (nonlinear_arith);
    }
}

fn push_be(t: u64, n: usize, out: &mut Vec<u8>)
    ensures
        final(out)@ == old(out)@ + be_bytes(t as nat, n as nat),
    decreases n,
{
    if n > 0 {
        push_be(t / 256, n - 1, out);
        out.push((t % 256) as u8);
        assert(final(out)@ =~= old(out)@ + be_bytes(t as nat, n as nat));
    } else {
        assert(final(out)@ =~= old(out)@ + be_bytes(t as nat, n as nat));
    }
}

/// How a record's time is stored: eight bytes, most significant first.
pub fn timestamp_bytes(t: u64) -> (r: Vec<u8>)
    ensures
        r@ == be_bytes(t as nat, 8),
        r@.len() == 8,
{
    let mut r: Vec<u8> = Vec::new();
    push_be(t, 8, &mut r);
    proof {
        lemma_pow256_8();
        lemma_be_round_trip(t as nat, 8);
    }
    assert(r@ =~= be_bytes(t as nat, 8));
    r
}

/// The time that stored bytes hold; `None` unless there are eight of them.
pub fn timestamp_of(b: &Vec<u8>) -> (r: Option<u64>)
    ensures
        r == if b@.len() == 8 {
            Some(be_value(b@) as u64)
        } else {
            None::<u64>
        },
        r is Some ==> r->0 as nat == be_value(b@),
{
    if b.len() != 8 {
        return None;
    }
    let mut acc: u64 = 0;
    let mut i: usize = 0;
    proof {
        lemma_pow256_8();
    }
    assert(b@.subrange(0, 0) =~= Seq::<u8>::empty());
    while i < 8
        invariant
            b@.len() == 8,
            i <= 8,
            acc as nat == be_value(b@.subrange(0, i as int)),
            acc < pow256(i as nat),
            pow256(8) == 0x1_0000_0000_0000_0000,
        decreases 8 - i,
    {
        proof {
            lemma_pow256_le(i as nat + 1, 8);
        }
        let ghost p = pow256(i as nat);
        let d = b[i];
        assert(acc * 256 + d < p * 256) by (nonlinear_arith)
            requires
                acc < p,
                d < 256,
        ;
        acc = acc * 256 + d as u64;
        assert(b@.subrange(0, i + 1).drop_last() =~= b@.subrange(0, i as int));
        i += 1;
    }
    assert(b@.subrange(0, 8) =~= b@);
    Some(acc)
}

proof fn lemma_pow256_le(m: nat, n: nat)
    requires
        m <= n,
    ensures
        pow256(m) <= pow256(n),
    decreases n,
{
    if m < n {
        lemma_pow256_le(m, (n - 1) as nat);
    }
}

/// Stored times read back as they were written.
pub proof fn lemma_timestamp_round_trip(t: u64)
    ensures
        be_bytes(t as nat, 8).len() == 8,
        be_value(be_bytes(t as nat, 8)) == t,
{
    lemma_pow256_8();
    lemma_be_round_trip(t as nat, 8);
}

} // verus!
