//! One polling cycle: merge the listings, pick the posts worth resolving,
//! gate resolved groups on score and on the dedup store, and reserve the
//! members of each admitted group before any delivery starts.
use crate::group::{contains_id, ImgData};
use crate::store::DB;
use vstd::prelude::*;

verus! {

/// Groups scoring below this are never delivered.
pub const SCORE_THRESHOLD: u64 = 50;

/// `s` without repeats, first occurrences kept.
pub open spec fn distinct(s: Seq<i64>) -> Seq<i64>
    decreases s.len(),
{
    if s.len() == 0 {
        s
    } else {
        let r = distinct(s.drop_last());
        if r.contains(s.last()) {
            r
        } else {
            r.push(s.last())
        }
    }
}

/// The primary listing's ids, then the auxiliary listing's, each id once.
pub fn merge_candidates(primary: &Vec<i64>, auxiliary: &Vec<i64>) -> (r: Vec<i64>)
    ensures
        r@ == distinct(primary@ + auxiliary@),
{
    let ghost all = primary@ + auxiliary@;
    let mut r: Vec<i64> = Vec::new();
    let mut i: usize = 0;
    while i < primary.len()
        invariant
            all == primary@ + auxiliary@,
            i <= primary@.len(),
            r@ == distinct(all.subrange(0, i as int)),
        decreases primary@.len() - i,
    {
        assert(all.subrange(0, i + 1).drop_last() =~= all.subrange(0, i as int));
        assert(all[i as int] == primary@[i as int]);
        if !contains_id(&r, primary[i]) {
            r.push(primary[i]);
        }
        i += 1;
    }
    let mut j: usize = 0;
    while j < auxiliary.len()
        invariant
            all == primary@ + auxiliary@,
            j <= auxiliary@.len(),
            r@ == distinct(all.subrange(0, primary@.len() + j)),
        decreases auxiliary@.len() - j,
    {
        let ghost n = primary@.len() + j;
        assert(all.subrange(0, n + 1).drop_last() =~= all.subrange(0, n));
        assert(all[n] == auxiliary@[j as int]);
        if !contains_id(&r, auxiliary[j]) {
            r.push(auxiliary[j]);
        }
        j += 1;
    }
    assert(all.subrange(0, all.len() as int) =~= all);
    r
}

/// A post is worth resolving when it has no dedup record and is no member of
/// a group already resolved in this cycle.
pub open spec fn fresh(id: i64, store: Map<i64, u64>, seen: Seq<i64>) -> bool {
    !store.contains_key(id) && !seen.contains(id)
}

/// The position of the first fresh candidate at or after `from`.
pub open spec fn first_fresh(c: Seq<i64>, from: int, store: Map<i64, u64>, seen: Seq<i64>) -> Option<
    int,
>
    decreases c.len() - from,
{
    if from < 0 || from >= c.len() {
        None
    } else if fresh(c[from], store, seen) {
        Some(from)
    } else {
        first_fresh(c, from + 1, store, seen)
    }
}

proof fn lemma_first_fresh_is_fresh(c: Seq<i64>, from: int, store: Map<i64, u64>, seen: Seq<i64>)
    ensures
        match first_fresh(c, from, store, seen) {
            Some(j) => from <= j < c.len() && fresh(c[j], store, seen),
            None => true,
        },
    decreases c.len() - from,
{
    if 0 <= from < c.len() && !fresh(c[from], store, seen) {
        lemma_first_fresh_is_fresh(c, from + 1, store, seen);
    }
}

/// A group is delivered when it scores at least the threshold and some
/// member has no dedup record.
pub open spec fn qualifies(score: u64, members: Seq<i64>, store: Map<i64, u64>) -> bool {
    score >= SCORE_THRESHOLD && exists|i: int|
        0 <= i < members.len() && !store.contains_key(#[trigger] members[i])
}

/// `store` with every id of `ids` recorded at `now`.
pub open spec fn reserved(store: Map<i64, u64>, ids: Seq<i64>, now: u64) -> Map<i64, u64> {
    Map::new(
        |k: i64| store.contains_key(k) || ids.contains(k),
        |k: i64|
            if ids.contains(k) {
                now
            } else {
                store[k]
            },
    )
}

/// The state of one cycle's filtering.
pub struct Scan {
    /// The merged listing, each id once.
    pub candidates: Vec<i64>,
    /// How far the candidates have been gone through.
    pub next: usize,
    /// Members of the groups resolved so far.
    pub seen: Vec<i64>,
    /// The admitted groups, by canonical id.
    pub dispatched: Vec<(i64, ImgData)>,
}

impl Scan {
    pub fn new(primary: &Vec<i64>, auxiliary: &Vec<i64>) -> (r: Scan)
        ensures
            r.candidates@ == distinct(primary@ + auxiliary@),
            r.next == 0,
            r.seen@.len() == 0,
            r.dispatched@.len() == 0,
    {
        Scan {
            candidates: merge_candidates(primary, auxiliary),
            next: 0,
            seen: Vec::new(),
            dispatched: Vec::new(),
        }
    }

    /// The next candidate worth resolving, if any is left.
    pub fn next_candidate(&mut self, store: &DB) -> (r: Option<i64>)
        requires
            old(self).next <= old(self).candidates@.len(),
        ensures
            final(self).candidates == old(self).candidates,
            final(self).seen == old(self).seen,
            final(self).dispatched == old(self).dispatched,
            final(self).next <= final(self).candidates@.len(),
            match first_fresh(old(self).candidates@, old(self).next as int, store@, old(self).seen@) {
                Some(j) => r == Some(old(self).candidates@[j]) && final(self).next == j + 1,
                None => r is None && final(self).next == old(self).candidates@.len(),
            },
            match r {
                Some(id) => !store@.contains_key(id) && !old(self).seen@.contains(id),
                None => true,
            },
    {
        proof {
            lemma_first_fresh_is_fresh(
                old(self).candidates@,
                old(self).next as int,
                store@,
                old(self).seen@,
            );
        }
        while self.next < self.candidates.len()
            invariant
                self.candidates == old(self).candidates,
                self.seen == old(self).seen,
                self.dispatched == old(self).dispatched,
                old(self).next <= self.next <= self.candidates@.len(),
                first_fresh(self.candidates@, old(self).next as int, store@, self.seen@)
                    == first_fresh(self.candidates@, self.next as int, store@, self.seen@),
            decreases self.candidates@.len() - self.next,
        {
            let id = self.candidates[self.next];
            self.next = self.next + 1;
            if !store.contains(id) && !contains_id(&self.seen, id) {
                return Some(id);
            }
        }
        None
    }

    /// Takes in a resolved group; every member counts as seen. A group that
    /// qualifies is queued for delivery, its members stored with time
    /// `now` first.
    pub fn take_group(&mut self, store: &mut DB, canonical: i64, data: ImgData, now: u64) -> (r: bool)
        requires
            old(store).wf(),
        ensures
            final(store).wf(),
            r == qualifies(data.score, data.member_ids(), old(store)@),
            data.score < SCORE_THRESHOLD ==> !r,
            final(store)@ == if r {
                reserved(old(store)@, data.member_ids(), now)
            } else {
                old(store)@
            },
            final(self).candidates == old(self).candidates,
            final(self).next == old(self).next,
            final(self).seen@ == old(self).seen@ + data.member_ids(),
            final(self).dispatched@ == if r {
                old(self).dispatched@.push((canonical, data))
            } else {
                old(self).dispatched@
            },
    {
        let ghost ids = data.member_ids();
        let n = data.url.len();
        let mut any_new = false;
        let mut i: usize = 0;
        while i < n
            invariant
                n == data.url@.len(),
                ids == data.member_ids(),
                i <= n,
                self.seen@ == old(self).seen@ + ids.subrange(0, i as int),
                self.candidates == old(self).candidates,
                self.next == old(self).next,
                self.dispatched == old(self).dispatched,
                any_new == exists|k: int| 0 <= k < i && !store@.contains_key(#[trigger] ids[k]),
            decreases n - i,
        {
            let id = data.url[i].0;
            assert(ids[i as int] == id);
            if !store.contains(id) {
                any_new = true;
            }
            self.seen.push(id);
            assert(self.seen@ =~= old(self).seen@ + ids.subrange(0, i + 1));
            i += 1;
        }
        assert(ids.subrange(0, n as int) =~= ids);
        if data.score < SCORE_THRESHOLD || !any_new {
            return false;
        }
        let ghost before = store@;
        let mut j: usize = 0;
        while j < n
            invariant
                n == data.url@.len(),
                ids == data.member_ids(),
                j <= n,
                store.wf(),
                store@ == reserved(before, ids.subrange(0, j as int), now),
            decreases n - j,
        {
            let id = data.url[j].0;
            assert(ids[j as int] == id);
            store.insert(id, now);
            let ghost pre = ids.subrange(0, j as int);
            let ghost post = ids.subrange(0, j + 1);
            assert forall|k: i64| post.contains(k) == (pre.contains(k) || k == id) by {
                if pre.contains(k) {
                    let a = choose|a: int| 0 <= a < pre.len() && pre[a] == k;
                    assert(post[a] == k);
                }
                if k == id {
                    assert(post[j as int] == k);
                }
                if post.contains(k) && k != id {
                    let a = choose|a: int| 0 <= a < post.len() && post[a] == k;
                    assert(pre[a] == k);
                }
            }
            assert(store@ =~= reserved(before, post, now));
            j += 1;
        }
        assert(ids.subrange(0, n as int) =~= ids);
        self.dispatched.push((canonical, data));
        true
    }
}

/// A group whose members all have dedup records is not delivered.
pub proof fn lemma_recorded_group_is_skipped(score: u64, members: Seq<i64>, store: Map<i64, u64>)
    requires
        forall|i: int| 0 <= i < members.len() ==> store.contains_key(#[trigger] members[i]),
    ensures
        !qualifies(score, members, store),
{
}

/// Once a group has been admitted and its members reserved, the same group
/// coming back (no eviction in between) is not admitted again.
pub proof fn lemma_admitted_group_not_redispatched(
    score: u64,
    members: Seq<i64>,
    store: Map<i64, u64>,
    now: u64,
)
    ensures
        !qualifies(score, members, reserved(store, members, now)),
{
    assert forall|i: int| 0 <= i < members.len() implies reserved(
        store,
        members,
        now,
    ).contains_key(#[trigger] members[i]) by {
        assert(members.contains(members[i]));
    }
}

/// A group scoring below the threshold is never delivered, whatever the
/// store holds.
pub proof fn lemma_low_score_never_dispatched(score: u64, members: Seq<i64>, store: Map<i64, u64>)
    requires
        score < SCORE_THRESHOLD,
    ensures
        !qualifies(score, members, store),
{
}

} // verus!
