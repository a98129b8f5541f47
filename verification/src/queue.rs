//! The keyed single-flight queue.
//!
//! The queue maps each key to at most one running transaction. Every
//! submission is assigned the next generation number for its key, strictly
//! increasing while the key's record lives. Of the two acceptable
//! supersession policies this queue implements *supersede-latest*: while a
//! transaction runs, only the newest pending submission per key is kept; a
//! submission displaced from the pending slot resolves as superseded without
//! ever running, and a running transaction observes at a checkpoint whether
//! its generation is still the newest. A key's record exists exactly while a
//! transaction runs for it and is removed as soon as nothing is running or
//! pending, so bookkeeping does not grow with churn across distinct keys.
//!
//! The queue itself is pure bookkeeping: the caller runs the pipelines,
//! reports completions, and delivers outcomes to waiters. The transition
//! relations `submit_rel` and `complete_rel` state exactly what each
//! operation does; the laws at the bottom of this module are proved from
//! them alone.

use vstd::prelude::*;

verus! {

/// Bookkeeping for one key. A record exists exactly while a transaction is
/// running for its key.
pub struct KeyRecord {
    /// The key this record belongs to.
    pub key: String,
    /// The last generation number assigned for this key.
    pub latest_gen: u64,
    /// The generation of the running transaction.
    pub running_gen: u64,
    /// The newest pending submission, if any.
    pub pending_gen: Option<u64>,
}

impl KeyRecord {
    /// Generations start at one; the pending submission, when present, is
    /// always the newest generation and newer than the running one.
    pub open spec fn wf(self) -> bool {
        &&& 1 <= self.running_gen <= self.latest_gen
        &&& match self.pending_gen {
            Some(p) => p == self.latest_gen && self.running_gen < p,
            None => self.running_gen == self.latest_gen,
        }
    }
}

/// What `submit` did with the new submission: started it at once (no
/// transaction was running for the key), or parked it as the key's newest
/// pending submission, displacing the previous pending one if there was
/// one. A displaced generation must be resolved as superseded by the
/// caller; it will never run.
#[derive(Debug, Clone, Copy, PartialEq, Eq)]
pub enum SubmitEffect {
    Started { gen: u64 },
    Parked { gen: u64, displaced: Option<u64> },
}

impl SubmitEffect {
    /// The generation assigned to the submission.
    pub open spec fn gen_of(self) -> u64 {
        match self {
            SubmitEffect::Started { gen } => gen,
            SubmitEffect::Parked { gen, .. } => gen,
        }
    }

    pub open spec fn is_started(self) -> bool {
        matches!(self, SubmitEffect::Started { .. })
    }

    /// The pending generation displaced by this submission, if any.
    pub open spec fn displaced_of(self) -> Option<u64> {
        match self {
            SubmitEffect::Started { .. } => None,
            SubmitEffect::Parked { displaced, .. } => displaced,
        }
    }
}

/// The scheduling core: per-key records guarded by the owner of this value.
pub struct SingleFlightQueue {
    records: Vec<KeyRecord>,
}

impl SingleFlightQueue {
    /// Well-formed: every record is well-formed and keys are unique.
    pub closed spec fn wf(self) -> bool {
        &&& forall|i: int|
            0 <= i < self.records@.len() ==> (#[trigger] self.records@[i]).wf()
        &&& forall|i: int, j: int|
            0 <= i < self.records@.len() && 0 <= j < self.records@.len() && i != j
                ==> (#[trigger] self.records@[i]).key@ != (#[trigger] self.records@[j]).key@
    }

    /// Whether a transaction is currently running for key `k`.
    pub closed spec fn tracks(self, k: Seq<char>) -> bool {
        exists|i: int| 0 <= i < self.records@.len() && (#[trigger] self.records@[i]).key@ == k
    }

    spec fn idx(self, k: Seq<char>) -> int {
        choose|i: int| 0 <= i < self.records@.len() && (#[trigger] self.records@[i]).key@ == k
    }

    /// The last generation assigned for `k` (meaningful while tracked).
    pub closed spec fn latest(self, k: Seq<char>) -> u64 {
        self.records@[self.idx(k)].latest_gen
    }

    /// The generation running for `k` (meaningful while tracked).
    pub closed spec fn running(self, k: Seq<char>) -> u64 {
        self.records@[self.idx(k)].running_gen
    }

    /// The pending generation for `k`, if any (meaningful while tracked).
    pub closed spec fn pending(self, k: Seq<char>) -> Option<u64> {
        self.records@[self.idx(k)].pending_gen
    }

    /// Generation `g` is live for `k`: it is running or pending, so a waiter
    /// still awaits its outcome.
    pub open spec fn live(self, k: Seq<char>, g: u64) -> bool {
        self.tracks(k) && (self.running(k) == g || self.pending(k) == Some(g))
    }

    /// Generation `g` is the one running for `k`.
    pub open spec fn is_running_gen(self, k: Seq<char>, g: u64) -> bool {
        self.tracks(k) && self.running(k) == g
    }

    proof fn lemma_at(self, k: Seq<char>, i: int)
        requires
            self.wf(),
            0 <= i < self.records@.len(),
            self.records@[i].key@ == k,
        ensures
            self.tracks(k),
            self.idx(k) == i,
            self.latest(k) == self.records@[i].latest_gen,
            self.running(k) == self.records@[i].running_gen,
            self.pending(k) == self.records@[i].pending_gen,
    {
        assert(self.tracks(k));
        let j: int = self.idx(k);
        assert(0 <= j < self.records@.len() && self.records@[j].key@ == k);
        if i != j {
            assert(self.records@[i].key@ != self.records@[j].key@);
        }
    }

    /// A fresh queue tracking no key.
    pub fn new() -> (r: SingleFlightQueue)
        ensures
            r.wf(),
            forall|k: Seq<char>| !(#[trigger] r.tracks(k)),
    {
        SingleFlightQueue { records: Vec::new() }
    }

    /// Submits a new transaction for `key` and assigns it the key's next
    /// generation number. If nothing runs for `key`, the submission starts
    /// at once (the caller must run its pipeline and later call `complete`).
    /// Otherwise it becomes the key's only pending submission; the pending
    /// one it displaces, if any, must be resolved as superseded by the
    /// caller.
    pub fn submit(&mut self, key: &String) -> (r: SubmitEffect)
        requires
            old(self).wf(),
            old(self).tracks(key@) ==> old(self).latest(key@) < u64::MAX,
        ensures
            final(self).wf(),
            submit_rel(*old(self), key@, *final(self), r.gen_of(), r.is_started(), r.displaced_of()),
    {
        let n: usize = self.records.len();
        let mut i: usize = 0;
        while i < n
            invariant
                old(self).wf(),
                old(self).tracks(key@) ==> old(self).latest(key@) < u64::MAX,
                self.records@ == old(self).records@,
                n == self.records@.len(),
                i <= n,
                forall|j: int| 0 <= j < i ==> (#[trigger] self.records@[j]).key@ != key@,
            decreases n - i,
        {
            if self.records[i].key == *key {
                proof {
                    old(self).lemma_at(key@, i as int);
                }
                let g: u64 = self.records[i].latest_gen + 1;
                let mut rec = self.records.remove(i);
                let displaced = rec.pending_gen;
                rec.latest_gen = g;
                rec.pending_gen = Some(g);
                self.records.push(rec);
                proof {
                    self.lemma_reinsert(*old(self), i as int, key@);
                }
                return SubmitEffect::Parked { gen: g, displaced };
            }
            i += 1;
        }
        proof {
            if old(self).tracks(key@) {
                let j: int = old(self).idx(key@);
                assert(self.records@[j].key@ != key@);
            }
        }
        let rec = KeyRecord { key: key.clone(), latest_gen: 1, running_gen: 1, pending_gen: None };
        self.records.push(rec);
        proof {
            self.lemma_append_fresh(*old(self), key@);
        }
        SubmitEffect::Started { gen: 1 }
    }

    /// The checkpoint: whether generation `gen` is still the newest recorded
    /// for `key`. Synchronous, in-memory comparison only. Under the
    /// supersede-latest policy a running transaction that is no longer
    /// current must resolve as superseded at its next checkpoint.
    pub fn is_current(&self, key: &String, gen: u64) -> (r: bool)
        requires
            self.wf(),
        ensures
            r == (self.tracks(key@) && self.latest(key@) == gen),
    {
        let n: usize = self.records.len();
        let mut i: usize = 0;
        while i < n
            invariant
                n == self.records@.len(),
                i <= n,
                self.wf(),
                forall|j: int| 0 <= j < i ==> (#[trigger] self.records@[j]).key@ != key@,
            decreases n - i,
        {
            if self.records[i].key == *key {
                proof {
                    self.lemma_at(key@, i as int);
                }
                return self.records[i].latest_gen == gen;
            }
            i += 1;
        }
        proof {
            if self.tracks(key@) {
                let j: int = self.idx(key@);
                assert(self.records@[j].key@ != key@);
            }
        }
        false
    }

    /// The last generation assigned for `key`, while a transaction runs
    /// for it. Callers use it to guard against the (practically
    /// unreachable) exhaustion of a key's generation counter.
    pub fn current_gen(&self, key: &String) -> (r: Option<u64>)
        requires
            self.wf(),
        ensures
            match r {
                Some(g) => self.tracks(key@) && self.latest(key@) == g,
                None => !self.tracks(key@),
            },
    {
        let n: usize = self.records.len();
        let mut i: usize = 0;
        while i < n
            invariant
                n == self.records@.len(),
                i <= n,
                self.wf(),
                forall|j: int| 0 <= j < i ==> (#[trigger] self.records@[j]).key@ != key@,
            decreases n - i,
        {
            if self.records[i].key == *key {
                proof {
                    self.lemma_at(key@, i as int);
                }
                return Some(self.records[i].latest_gen);
            }
            i += 1;
        }
        proof {
            if self.tracks(key@) {
                let j: int = self.idx(key@);
                assert(self.records@[j].key@ != key@);
            }
        }
        None
    }

    /// Reports that the transaction running for `key` (generation `gen`) has
    /// reached a terminal state. If a pending submission exists it is
    /// promoted to running and returned — the caller must now run its
    /// pipeline. Otherwise the key's record is removed.
    pub fn complete(&mut self, key: &String, gen: u64) -> (r: Option<u64>)
        requires
            old(self).wf(),
            old(self).tracks(key@),
            old(self).running(key@) == gen,
        ensures
            final(self).wf(),
            complete_rel(*old(self), key@, gen, *final(self), r),
    {
        let n: usize = self.records.len();
        let mut i: usize = 0;
        while i < n
            invariant
                old(self).wf(),
                old(self).tracks(key@),
                old(self).running(key@) == gen,
                self.records@ == old(self).records@,
                n == self.records@.len(),
                i <= n,
                forall|j: int| 0 <= j < i ==> (#[trigger] self.records@[j]).key@ != key@,
            decreases n - i,
        {
            if self.records[i].key == *key {
                proof {
                    old(self).lemma_at(key@, i as int);
                }
                let has_pending = self.records[i].pending_gen.is_some();
                if has_pending {
                    let mut rec = self.records.remove(i);
                    let p: u64 = match rec.pending_gen {
                        Some(p) => p,
                        None => 0,
                    };
                    rec.running_gen = p;
                    rec.pending_gen = None;
                    self.records.push(rec);
                    proof {
                        self.lemma_reinsert(*old(self), i as int, key@);
                    }
                    return Some(p);
                } else {
                    let _ = self.records.remove(i);
                    proof {
                        self.lemma_drop(*old(self), i as int, key@);
                    }
                    return None;
                }
            }
            i += 1;
        }
        proof {
            let j: int = old(self).idx(key@);
            assert(self.records@[j].key@ != key@);
        }
        None
    }

    /// After removing index `i` (the record for `k`) and pushing back a
    /// record with the same key: every record is where the index mapping
    /// says, `k` maps to the pushed record, and all other keys keep their
    /// records.
    proof fn lemma_reinsert(self, pre: SingleFlightQueue, i: int, k: Seq<char>)
        requires
            pre.wf(),
            0 <= i < pre.records@.len(),
            pre.records@[i].key@ == k,
            self.records@.len() == pre.records@.len(),
            self.records@ == pre.records@.remove(i).push(
                self.records@[pre.records@.len() - 1],
            ),
            self.records@[pre.records@.len() - 1].key@ == k,
            self.records@[pre.records@.len() - 1].wf(),
        ensures
            self.wf(),
            self.tracks(k),
            self.latest(k) == self.records@[pre.records@.len() - 1].latest_gen,
            self.running(k) == self.records@[pre.records@.len() - 1].running_gen,
            self.pending(k) == self.records@[pre.records@.len() - 1].pending_gen,
            unchanged_except(pre, self, k),
    {
        let n: int = pre.records@.len() as int;
        pre.records@.remove_ensures(i);
        assert forall|m: int| 0 <= m < n - 1 implies self.records@[m] == (if m < i {
            pre.records@[m]
        } else {
            pre.records@[m + 1]
        }) by {
            assert(self.records@[m] == pre.records@.remove(i)[m]);
        }
        assert(self.wf());
        self.lemma_at(k, n - 1);
        assert forall|k2: Seq<char>| k2 != k implies ((#[trigger] self.tracks(k2))
            == pre.tracks(k2) && (pre.tracks(k2) ==> self.latest(k2) == pre.latest(k2)
            && self.running(k2) == pre.running(k2) && self.pending(k2) == pre.pending(
            k2,
        ))) by {
            if pre.tracks(k2) {
                let j: int = pre.idx(k2);
                assert(pre.records@[j].key@ == k2);
                assert(j != i);
                let j2: int = if j < i {
                    j
                } else {
                    j - 1
                };
                assert(self.records@[j2] == pre.records@[j]);
                self.lemma_at(k2, j2);
                pre.lemma_at(k2, j);
            }
            if self.tracks(k2) {
                let m: int = self.idx(k2);
                assert(self.records@[m].key@ == k2);
                assert(m != n - 1);
                let m2: int = if m < i {
                    m
                } else {
                    m + 1
                };
                assert(pre.records@[m2].key@ == k2);
                assert(pre.tracks(k2));
            }
        }
    }

    /// After removing index `i` (the record for `k`): `k` is no longer
    /// tracked and all other keys keep their records.
    proof fn lemma_drop(self, pre: SingleFlightQueue, i: int, k: Seq<char>)
        requires
            pre.wf(),
            0 <= i < pre.records@.len(),
            pre.records@[i].key@ == k,
            self.records@ == pre.records@.remove(i),
        ensures
            self.wf(),
            !self.tracks(k),
            unchanged_except(pre, self, k),
    {
        let n: int = pre.records@.len() as int;
        pre.records@.remove_ensures(i);
        assert forall|m: int| 0 <= m < n - 1 implies self.records@[m] == (if m < i {
            pre.records@[m]
        } else {
            pre.records@[m + 1]
        }) by {
            assert(self.records@[m] == pre.records@.remove(i)[m]);
        }
        assert(self.wf());
        if self.tracks(k) {
            let m: int = self.idx(k);
            assert(self.records@[m].key@ == k);
            let m2: int = if m < i {
                m
            } else {
                m + 1
            };
            assert(pre.records@[m2].key@ == k);
            assert(m2 != i);
            assert(false);
        }
        assert forall|k2: Seq<char>| k2 != k implies ((#[trigger] self.tracks(k2))
            == pre.tracks(k2) && (pre.tracks(k2) ==> self.latest(k2) == pre.latest(k2)
            && self.running(k2) == pre.running(k2) && self.pending(k2) == pre.pending(
            k2,
        ))) by {
            if pre.tracks(k2) {
                let j: int = pre.idx(k2);
                assert(pre.records@[j].key@ == k2);
                assert(j != i);
                let j2: int = if j < i {
                    j
                } else {
                    j - 1
                };
                assert(self.records@[j2] == pre.records@[j]);
                self.lemma_at(k2, j2);
                pre.lemma_at(k2, j);
            }
            if self.tracks(k2) {
                let m: int = self.idx(k2);
                assert(self.records@[m].key@ == k2);
                let m2: int = if m < i {
                    m
                } else {
                    m + 1
                };
                assert(pre.records@[m2].key@ == k2);
                assert(pre.tracks(k2));
            }
        }
    }

    /// After pushing a fresh well-formed record for a previously untracked
    /// key `k`: `k` is tracked with that record and other keys are
    /// unchanged.
    proof fn lemma_append_fresh(self, pre: SingleFlightQueue, k: Seq<char>)
        requires
            pre.wf(),
            !pre.tracks(k),
            self.records@ == pre.records@.push(self.records@[pre.records@.len() as int]),
            self.records@[pre.records@.len() as int].key@ == k,
            self.records@[pre.records@.len() as int].wf(),
        ensures
            self.wf(),
            self.tracks(k),
            self.latest(k) == self.records@[pre.records@.len() as int].latest_gen,
            self.running(k) == self.records@[pre.records@.len() as int].running_gen,
            self.pending(k) == self.records@[pre.records@.len() as int].pending_gen,
            unchanged_except(pre, self, k),
    {
        let n: int = pre.records@.len() as int;
        assert forall|m: int| 0 <= m < n implies self.records@[m] == pre.records@[m] by {}
        assert forall|m: int| 0 <= m < n implies (#[trigger] self.records@[m]).key@ != k by {
            if self.records@[m].key@ == k {
                assert(pre.records@[m].key@ == k);
                assert(pre.tracks(k));
            }
        }
        assert(self.wf());
        self.lemma_at(k, n);
        assert forall|k2: Seq<char>| k2 != k implies ((#[trigger] self.tracks(k2))
            == pre.tracks(k2) && (pre.tracks(k2) ==> self.latest(k2) == pre.latest(k2)
            && self.running(k2) == pre.running(k2) && self.pending(k2) == pre.pending(
            k2,
        ))) by {
            if pre.tracks(k2) {
                let j: int = pre.idx(k2);
                assert(pre.records@[j].key@ == k2);
                self.lemma_at(k2, j);
                pre.lemma_at(k2, j);
            }
            if self.tracks(k2) {
                let m: int = self.idx(k2);
                assert(self.records@[m].key@ == k2);
                assert(m != n);
                assert(pre.records@[m].key@ == k2);
                assert(pre.tracks(k2));
            }
        }
    }
}

/// Keys other than `k` see no change at all between `pre` and `post`.
pub open spec fn unchanged_except(
    pre: SingleFlightQueue,
    post: SingleFlightQueue,
    k: Seq<char>,
) -> bool {
    forall|k2: Seq<char>|
        k2 != k ==> ((#[trigger] post.tracks(k2)) == pre.tracks(k2) && (pre.tracks(k2)
            ==> post.latest(k2) == pre.latest(k2) && post.running(k2) == pre.running(k2)
            && post.pending(k2) == pre.pending(k2)))
}

/// Exactly what `submit` does: a fresh key starts generation 1 running at
/// once; a tracked key parks the new generation `latest + 1` as the only
/// pending submission, displacing the previous pending one. Other keys are
/// untouched.
pub open spec fn submit_rel(
    pre: SingleFlightQueue,
    k: Seq<char>,
    post: SingleFlightQueue,
    g: u64,
    started: bool,
    displaced: Option<u64>,
) -> bool {
    &&& post.tracks(k)
    &&& post.latest(k) == g
    &&& if pre.tracks(k) {
        &&& g == pre.latest(k) + 1
        &&& !started
        &&& post.running(k) == pre.running(k)
        &&& post.pending(k) == Some(g)
        &&& displaced == pre.pending(k)
    } else {
        &&& g == 1
        &&& started
        &&& post.running(k) == g
        &&& post.pending(k) == None::<u64>
        &&& displaced == None::<u64>
    }
    &&& unchanged_except(pre, post, k)
}

/// Exactly what `complete` does: the running generation `g` leaves; a
/// pending submission, if any, is promoted to running (and returned to the
/// caller to run), otherwise the key's record is removed. Other keys are
/// untouched.
pub open spec fn complete_rel(
    pre: SingleFlightQueue,
    k: Seq<char>,
    g: u64,
    post: SingleFlightQueue,
    promoted: Option<u64>,
) -> bool {
    &&& pre.tracks(k)
    &&& pre.running(k) == g
    &&& match pre.pending(k) {
        Some(p) => {
            &&& promoted == Some(p)
            &&& post.tracks(k)
            &&& post.running(k) == p
            &&& post.pending(k) == None::<u64>
            &&& post.latest(k) == pre.latest(k)
        },
        None => {
            &&& promoted == None::<u64>
            &&& !post.tracks(k)
        },
    }
    &&& unchanged_except(pre, post, k)
}

/// Single-flight law: for any key, at most one transaction is running at
/// any instant — two generations both observed running for the same key
/// are the same generation.
pub proof fn lemma_single_flight(q: SingleFlightQueue, k: Seq<char>, g1: u64, g2: u64)
    requires
        q.is_running_gen(k, g1),
        q.is_running_gen(k, g2),
    ensures
        g1 == g2,
{
}

/// A displaced generation was parked, not running, at the moment it
/// resolved as superseded: displacement never interrupts the running
/// transaction, which only ever stops itself at a checkpoint.
pub proof fn lemma_displaced_is_parked(
    pre: SingleFlightQueue,
    k: Seq<char>,
    post: SingleFlightQueue,
    g: u64,
    started: bool,
    displaced: Option<u64>,
)
    requires
        pre.wf(),
        submit_rel(pre, k, post, g, started, displaced),
        displaced is Some,
    ensures
        pre.pending(k) == displaced,
        pre.running(k) != displaced->0,
        post.running(k) == pre.running(k),
{
    lemma_key_wf(pre, k);
}

/// One event in a key's history: a submission, or the completion of the
/// running transaction. A submission's `displaced` generation resolves as
/// superseded; a completion resolves the running generation with the
/// pipeline's own outcome and hands the promoted pending generation, if
/// any, to the caller to run next.
pub enum KeyEvent {
    Submit { gen: u64, started: bool, displaced: Option<u64> },
    Complete { gen: u64, promoted: Option<u64> },
}

/// One queue transition as seen by key `k`.
pub open spec fn key_step(
    pre: SingleFlightQueue,
    k: Seq<char>,
    ev: KeyEvent,
    post: SingleFlightQueue,
) -> bool {
    match ev {
        KeyEvent::Submit { gen, started, displaced } => submit_rel(
            pre,
            k,
            post,
            gen,
            started,
            displaced,
        ),
        KeyEvent::Complete { gen, promoted } => complete_rel(pre, k, gen, post, promoted),
    }
}

/// A history of the queue: every state is well-formed (as the operations
/// guarantee) and each event relates consecutive states.
pub open spec fn valid_trace(
    states: Seq<SingleFlightQueue>,
    k: Seq<char>,
    events: Seq<KeyEvent>,
) -> bool {
    &&& states.len() == events.len() + 1
    &&& forall|i: int| 0 <= i < states.len() ==> (#[trigger] states[i]).wf()
    &&& forall|i: int|
        0 <= i < events.len() ==> key_step(states[i], k, #[trigger] events[i], states[i + 1])
}

/// The event submits a transaction that was assigned generation `g`.
pub open spec fn is_submit(ev: KeyEvent, g: u64) -> bool {
    match ev {
        KeyEvent::Submit { gen, .. } => gen == g,
        KeyEvent::Complete { .. } => false,
    }
}

/// The event resolves generation `g`: it displaces it from the pending
/// slot (superseded without running), or completes it as the running
/// transaction.
pub open spec fn resolves(ev: KeyEvent, g: u64) -> bool {
    match ev {
        KeyEvent::Submit { displaced, .. } => displaced == Some(g),
        KeyEvent::Complete { gen, .. } => gen == g,
    }
}

/// The record invariant, read off a tracked key.
proof fn lemma_key_wf(q: SingleFlightQueue, k: Seq<char>)
    requires
        q.wf(),
        q.tracks(k),
    ensures
        1 <= q.running(k) <= q.latest(k),
        match q.pending(k) {
            Some(p) => p == q.latest(k) && q.running(k) < p,
            None => q.running(k) == q.latest(k),
        },
{
    let i: int = q.idx(k);
    assert(0 <= i < q.records@.len() && q.records@[i].key@ == k);
    assert(q.records@[i].wf());
}

/// `latest` never decreases across one event that keeps `k` tracked.
proof fn lemma_latest_monotone_step(
    pre: SingleFlightQueue,
    k: Seq<char>,
    ev: KeyEvent,
    post: SingleFlightQueue,
)
    requires
        key_step(pre, k, ev, post),
        pre.tracks(k),
        post.tracks(k),
    ensures
        post.latest(k) >= pre.latest(k),
{
}

/// `latest` never decreases along a stretch of the history in which `k`
/// stays tracked.
proof fn lemma_latest_monotone_range(
    states: Seq<SingleFlightQueue>,
    k: Seq<char>,
    events: Seq<KeyEvent>,
    a: int,
    b: int,
)
    requires
        valid_trace(states, k, events),
        0 <= a <= b < states.len(),
        forall|t: int| a <= t <= b ==> (#[trigger] states[t]).tracks(k),
    ensures
        states[b].latest(k) >= states[a].latest(k),
    decreases b - a,
{
    if a < b {
        lemma_latest_monotone_range(states, k, events, a, b - 1);
        lemma_latest_monotone_step(states[b - 1], k, events[b - 1], states[b]);
    }
}

/// Generation monotonicity law: of two submissions for one key, in order,
/// with the key staying tracked in between (any completions may be
/// interleaved), the later one receives the strictly greater generation.
pub proof fn lemma_generation_monotonic(
    states: Seq<SingleFlightQueue>,
    k: Seq<char>,
    events: Seq<KeyEvent>,
    i1: int,
    i2: int,
    g1: u64,
    g2: u64,
)
    requires
        valid_trace(states, k, events),
        0 <= i1 < i2 < events.len(),
        is_submit(events[i1], g1),
        is_submit(events[i2], g2),
        forall|t: int| i1 < t <= i2 ==> (#[trigger] states[t]).tracks(k),
    ensures
        g1 < g2,
{
    assert(key_step(states[i1], k, events[i1], states[i1 + 1]));
    assert(states[i1 + 1].latest(k) == g1);
    lemma_latest_monotone_range(states, k, events, i1 + 1, i2);
    assert(key_step(states[i2], k, events[i2], states[i2 + 1]));
}

/// Total delivery law: a submission assigned generation `g` resolves
/// exactly once — displaced as superseded by a later submission, or
/// completed after running — by the time the key's record is first gone
/// again. (Policy supersede-latest; the queue removes the record exactly
/// when nothing is running or pending.)
pub proof fn lemma_total_delivery(
    states: Seq<SingleFlightQueue>,
    k: Seq<char>,
    events: Seq<KeyEvent>,
    i: int,
    g: u64,
    e: int,
)
    requires
        valid_trace(states, k, events),
        0 <= i < events.len(),
        is_submit(events[i], g),
        i < e <= events.len(),
        !states[e].tracks(k),
        forall|t: int| i < t < e ==> (#[trigger] states[t]).tracks(k),
    ensures
        exists|j: int| i < j < e && #[trigger] resolves(events[j], g),
        forall|j1: int, j2: int|
            i < j1 < e && i < j2 < e && #[trigger] resolves(events[j1], g)
                && #[trigger] resolves(events[j2], g) ==> j1 == j2,
{
    lemma_delivery_walk(states, k, events, i, g, e, e);
    assert(!states[e].live(k, g));
}

/// Invariant walk behind the total-delivery law, for `i < t <= e`: the
/// submitted generation is live exactly until its unique resolution, and
/// while the key is tracked no fresh generation can collide with it.
proof fn lemma_delivery_walk(
    states: Seq<SingleFlightQueue>,
    k: Seq<char>,
    events: Seq<KeyEvent>,
    i: int,
    g: u64,
    e: int,
    t: int,
)
    requires
        valid_trace(states, k, events),
        0 <= i < events.len(),
        is_submit(events[i], g),
        i < e <= events.len(),
        forall|t2: int| i < t2 < e ==> (#[trigger] states[t2]).tracks(k),
        i < t <= e,
    ensures
        states[t].live(k, g) <==> !(exists|j: int| i < j < t && #[trigger] resolves(events[j], g)),
        forall|j1: int, j2: int|
            i < j1 < t && i < j2 < t && #[trigger] resolves(events[j1], g)
                && #[trigger] resolves(events[j2], g) ==> j1 == j2,
        states[t].tracks(k) ==> states[t].latest(k) >= g,
    decreases t,
{
    if t == i + 1 {
        assert(key_step(states[i], k, events[i], states[i + 1]));
        assert(states[t].live(k, g));
        assert forall|j: int| !(i < j < t && #[trigger] resolves(events[j], g)) by {}
    } else {
        lemma_delivery_walk(states, k, events, i, g, e, t - 1);
        let pre = states[t - 1];
        let post = states[t];
        let ev = events[t - 1];
        assert(key_step(pre, k, ev, post));
        assert(pre.tracks(k));
        if pre.live(k, g) {
            // no resolution so far
            assert(!(exists|j: int| i < j < t - 1 && #[trigger] resolves(events[j], g)));
            if resolves(ev, g) {
                // the unique resolution happens now; g stops being live
                assert(!post.live(k, g)) by {
                    lemma_key_wf(pre, k);
                    match ev {
                        KeyEvent::Submit { gen, started, displaced } => {
                            assert(displaced == Some(g));
                            assert(displaced == pre.pending(k));
                            assert(g == pre.latest(k));
                            assert(pre.running(k) < g);
                            assert(post.pending(k) == Some(gen));
                            assert(gen == pre.latest(k) + 1);
                            assert(post.running(k) == pre.running(k));
                        },
                        KeyEvent::Complete { gen, promoted } => {
                            assert(gen == g);
                            assert(pre.running(k) == g);
                            if pre.pending(k) is Some {
                                let p: u64 = pre.pending(k)->0;
                                assert(post.running(k) == p);
                                assert(p > pre.running(k));
                            }
                        },
                    }
                };
                assert(resolves(events[t - 1], g));
                assert(exists|j: int| i < j < t && #[trigger] resolves(events[j], g));
                assert forall|j1: int, j2: int|
                    i < j1 < t && i < j2 < t && #[trigger] resolves(events[j1], g)
                        && #[trigger] resolves(events[j2], g) implies j1 == j2 by {
                    if j1 < t - 1 {
                        assert(resolves(events[j1], g));
                        assert(false);
                    }
                    if j2 < t - 1 {
                        assert(resolves(events[j2], g));
                        assert(false);
                    }
                }
            } else {
                // g stays live, still unresolved
                assert(post.live(k, g)) by {
                    match ev {
                        KeyEvent::Submit { gen, started, displaced } => {
                            assert(displaced == pre.pending(k));
                            assert(pre.pending(k) != Some(g));
                            assert(pre.running(k) == g);
                            assert(post.running(k) == g);
                        },
                        KeyEvent::Complete { gen, promoted } => {
                            assert(gen == pre.running(k));
                            assert(gen != g);
                            assert(pre.pending(k) == Some(g));
                            assert(promoted == Some(g));
                            assert(post.running(k) == g);
                        },
                    }
                };
                assert forall|j: int| i < j < t && #[trigger] resolves(events[j], g) implies false by {
                    if j < t - 1 {
                        assert(resolves(events[j], g));
                    }
                }
            }
        } else {
            // g was already resolved, exactly once, before t - 1
            assert(exists|j: int| i < j < t - 1 && #[trigger] resolves(events[j], g));
            assert(!resolves(ev, g)) by {
                match ev {
                    KeyEvent::Submit { gen, started, displaced } => {
                        if displaced == Some(g) {
                            assert(displaced == pre.pending(k));
                            assert(pre.live(k, g));
                        }
                    },
                    KeyEvent::Complete { gen, promoted } => {
                        if gen == g {
                            assert(pre.running(k) == g);
                            assert(pre.live(k, g));
                        }
                    },
                }
            };
            assert(!post.live(k, g)) by {
                match ev {
                    KeyEvent::Submit { gen, started, displaced } => {
                        assert(gen == pre.latest(k) + 1);
                        assert(pre.latest(k) >= g);
                        assert(post.running(k) == pre.running(k));
                        assert(post.pending(k) == Some(gen));
                    },
                    KeyEvent::Complete { gen, promoted } => {
                        if post.tracks(k) {
                            assert(pre.pending(k) is Some);
                            let p = pre.pending(k)->0;
                            assert(p != g);
                            assert(post.running(k) == p);
                            assert(post.pending(k) == None::<u64>);
                        }
                    },
                }
            };
        }
        // freshness is maintained
        if post.tracks(k) {
            assert(post.latest(k) >= g) by {
                match ev {
                    KeyEvent::Submit { gen, started, displaced } => {
                        assert(gen == pre.latest(k) + 1);
                        assert(pre.latest(k) >= g);
                    },
                    KeyEvent::Complete { gen, promoted } => {
                        assert(post.latest(k) == pre.latest(k));
                    },
                }
            }
        }
    }
}

} // verus!
