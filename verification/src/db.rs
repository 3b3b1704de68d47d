//! The key-value store: entries with optional expiration instants, the ordered
//! set of expiration records the eviction routine walks, and the operations
//! that keep the two in lock-step under every mutation.
//!
//! Time is a plain instant in milliseconds. The asynchronous shell that owns
//! the store samples the clock, holds the lock, and calls these operations;
//! everything they decide is specified and proved here.
use vstd::prelude::*;

use crate::text::str_eq;

verus! {

/// One stored value: the id of the write that produced it (unique over the
/// store's lifetime), the payload, and the instant at which it expires, if any.
pub struct Entry {
    pub id: u64,
    pub data: Vec<u8>,
    pub expires_at: Option<u64>,
}

/// One keyed slot of the store.
pub struct Slot {
    pub key: String,
    pub entry: Entry,
}

/// One expiration record: the entry written with id `id` under `key` expires
/// at instant `when`. The id breaks ties between equal instants and lets an
/// overwrite retire exactly the record of the value it replaced.
pub struct ExpRecord {
    pub when: u64,
    pub id: u64,
    pub key: String,
}

/// The aggregate store state. All mutations go through the operations below,
/// which preserve [`State::wf`]: keys are unique, expiration records are kept
/// in strictly ascending `(when, id)` order, and the records mirror exactly
/// the entries that carry an expiration.
pub struct State {
    pub entries: Vec<Slot>,
    pub expirations: Vec<ExpRecord>,
    pub next_id: u64,
    pub shutdown: bool,
}

/// Whether `k` maps to an entry whose expiration is at or before `now`.
pub open spec fn expired_in(s: Seq<Slot>, k: Seq<char>, now: u64) -> bool {
    spec_lookup(s, k) matches Some(e) && e.expires_at matches Some(t) && t <= now
}

/// The entry stored under key `k`: the first slot whose key is `k`, if any.
pub open spec fn spec_lookup(s: Seq<Slot>, k: Seq<char>) -> Option<Entry>
    decreases s.len(),
{
    if s.len() == 0 {
        None
    } else if s[0].key@ == k {
        Some(s[0].entry)
    } else {
        spec_lookup(s.drop_first(), k)
    }
}

/// No two slots share a key.
pub open spec fn keys_unique(s: Seq<Slot>) -> bool {
    forall|i: int, j: int| 0 <= i < j < s.len() ==> s[i].key@ != s[j].key@
}

/// Strict `(when, id)` order between two expiration records.
pub open spec fn exp_before(a: ExpRecord, b: ExpRecord) -> bool {
    a.when < b.when || (a.when == b.when && a.id < b.id)
}

/// The records are strictly ascending by `(when, id)`.
pub open spec fn exp_sorted(s: Seq<ExpRecord>) -> bool {
    forall|i: int, j: int| 0 <= i < j < s.len() ==> exp_before(s[i], s[j])
}

/// Some record in `s` carries exactly this `(when, id, key)` triple.
pub open spec fn exp_contains(s: Seq<ExpRecord>, when: u64, id: u64, key: Seq<char>) -> bool {
    exists|i: int| 0 <= i < s.len() && s[i].when == when && s[i].id == id && s[i].key@ == key
}

/// The instant at which a value written at `now` with time-to-live `t`
/// (both in milliseconds) expires, saturating at the largest instant.
pub open spec fn spec_deadline(now: u64, t: u64) -> u64 {
    if now + t <= u64::MAX {
        (now + t) as u64
    } else {
        u64::MAX
    }
}

/// The expiration instant a write carries: the deadline when a time-to-live
/// was given, nothing otherwise.
pub open spec fn spec_expiry(now: u64, ttl: Option<u64>) -> Option<u64> {
    match ttl {
        Some(t) => Some(spec_deadline(now, t)),
        None => None,
    }
}

/// Everything a write guarantees, relating the store before (`s0`) and after
/// (`s1`) `set(key, value, ttl)` at instant `now` that returned `notify`:
/// the key now maps to a fresh entry carrying the value and the expiration,
/// no other key moved, the written key's old expiration record (if any) was
/// retired in the same step the new one (if any) was filed, and the eviction
/// routine is woken exactly when the new expiration comes before every
/// previously tracked one.
pub open spec fn spec_set_rel(
    s0: State,
    s1: State,
    key: Seq<char>,
    value: Seq<u8>,
    ttl: Option<u64>,
    now: u64,
    notify: bool,
) -> bool {
    &&& s1.wf()
    &&& s1.next_id == s0.next_id + 1
    &&& s1.shutdown == s0.shutdown
    &&& (spec_lookup(s1.entries@, key) matches Some(e) && e.id == s0.next_id && e.data@ == value
        && e.expires_at == spec_expiry(now, ttl))
    &&& forall|k: Seq<char>|
        k != key ==> #[trigger] spec_lookup(s1.entries@, k) == spec_lookup(s0.entries@, k)
    &&& forall|w: u64, i: u64, k: Seq<char>|
        #![trigger exp_contains(s1.expirations@, w, i, k)]
        #![trigger exp_contains(s0.expirations@, w, i, k)]
        exp_contains(s1.expirations@, w, i, k) <==> ((exp_contains(s0.expirations@, w, i, k)
            && k != key) || (k == key && spec_expiry(now, ttl) == Some(w) && i == s0.next_id))
    &&& notify == (match spec_expiry(now, ttl) {
        Some(w) => match s0.spec_next_expiration() {
            Some(e) => e > w,
            None => true,
        },
        None => false,
    })
}

/// Everything one purge pass guarantees, relating the store before (`s0`) and
/// after (`s1`) `purge_expired_keys(now)` that returned `r`: on a store
/// already shut down, nothing changes and nothing is reported; otherwise the
/// records still on file are exactly those strictly in the future, a key
/// keeps its entry precisely when that entry tracks no expiration or one
/// still in the future, and `r` is the soonest remaining expiration.
pub open spec fn spec_purge_rel(s0: State, s1: State, now: u64, r: Option<u64>) -> bool {
    &&& s1.wf()
    &&& s1.next_id == s0.next_id
    &&& s1.shutdown == s0.shutdown
    &&& (s0.shutdown ==> s1 == s0 && r is None)
    &&& (!s0.shutdown ==> {
        &&& forall|w: u64, i: u64, k: Seq<char>|
            #![trigger exp_contains(s1.expirations@, w, i, k)]
            #![trigger exp_contains(s0.expirations@, w, i, k)]
            exp_contains(s1.expirations@, w, i, k) <==> (exp_contains(s0.expirations@, w, i, k)
                && w > now)
        &&& forall|k: Seq<char>|
            #![trigger spec_lookup(s1.entries@, k)]
            spec_lookup(s1.entries@, k) == (match spec_lookup(s0.entries@, k) {
                Some(e) => if e.expires_at matches Some(t) && t <= now {
                    None
                } else {
                    Some(e)
                },
                None => None::<Entry>,
            })
        &&& r == s1.spec_next_expiration()
        &&& (r matches Some(w) ==> w > now)
    })
}

impl State {
    /// Well-formedness: unique keys, sorted records, ids below the counter,
    /// and the lock-step invariant in both directions — every entry with an
    /// expiration has its record, and every record points back at an entry
    /// carrying exactly its id and instant.
    pub open spec fn wf(self) -> bool {
        &&& keys_unique(self.entries@)
        &&& exp_sorted(self.expirations@)
        &&& forall|i: int, j: int|
            0 <= i < j < self.entries@.len() ==> self.entries@[i].entry.id
                != self.entries@[j].entry.id
        &&& forall|i: int|
            0 <= i < self.entries@.len() ==> self.entries@[i].entry.id < self.next_id
        &&& forall|i: int|
            0 <= i < self.entries@.len() ==> (#[trigger] self.entries@[i].entry.expires_at
                matches Some(t) ==> exp_contains(self.expirations@, t,
                self.entries@[i].entry.id, self.entries@[i].key@))
        &&& forall|j: int|
            0 <= j < self.expirations@.len()
                ==> (#[trigger] spec_lookup(self.entries@, self.expirations@[j].key@)
                matches Some(e) && e.id == self.expirations@[j].id && e.expires_at == Some(
                self.expirations@[j].when))
    }

    /// The instant of the soonest tracked expiration, if any is tracked.
    pub open spec fn spec_next_expiration(self) -> Option<u64> {
        if self.expirations@.len() > 0 {
            Some(self.expirations@[0].when)
        } else {
            None
        }
    }

    /// A fresh store: no entries, no expiration records, ids starting at zero,
    /// not shut down.
    pub fn new() -> (r: State)
        ensures
            r.wf(),
            r.entries@.len() == 0,
            r.expirations@.len() == 0,
            r.next_id == 0,
            !r.shutdown,
    {
        State { entries: Vec::new(), expirations: Vec::new(), next_id: 0, shutdown: false }
    }

    /// Reads the value stored under `key`, or reports it absent. Expiration is
    /// not consulted here: purging is solely the eviction routine's job, so an
    /// expired but not yet purged entry is still returned.
    pub fn get(&self, key: &str) -> (r: Option<Vec<u8>>)
        ensures
            match spec_lookup(self.entries@, key@) {
                Some(e) => r matches Some(v) && v@ == e.data@,
                None => r is None,
            },
    {
        let n = self.entries.len();
        let mut i: usize = 0;
        proof {
            assert(self.entries@.skip(0) =~= self.entries@);
        }
        while i < n
            invariant
                n == self.entries@.len(),
                i <= n,
                spec_lookup(self.entries@, key@) == spec_lookup(
                    self.entries@.skip(i as int),
                    key@,
                ),
            decreases n - i,
        {
            if str_eq(self.entries[i].key.as_str(), key) {
                proof {
                    assert(self.entries@.skip(i as int)[0] == self.entries@[i as int]);
                }
                return Some(self.entries[i].entry.data.clone());
            }
            proof {
                lemma_lookup_skip_step(self.entries@, key@, i as int);
            }
            i = i + 1;
        }
        None
    }

    /// The index of the slot holding `key`, if the key is present.
    fn find_key(&self, key: &str) -> (r: Option<usize>)
        ensures
            match spec_lookup(self.entries@, key@) {
                Some(e) => r matches Some(j) && j < self.entries@.len()
                    && self.entries@[j as int].key@ == key@ && self.entries@[j as int].entry == e,
                None => r is None,
            },
    {
        let n = self.entries.len();
        let mut i: usize = 0;
        proof {
            assert(self.entries@.skip(0) =~= self.entries@);
        }
        while i < n
            invariant
                n == self.entries@.len(),
                i <= n,
                spec_lookup(self.entries@, key@) == spec_lookup(
                    self.entries@.skip(i as int),
                    key@,
                ),
            decreases n - i,
        {
            if str_eq(self.entries[i].key.as_str(), key) {
                proof {
                    assert(self.entries@.skip(i as int)[0] == self.entries@[i as int]);
                }
                return Some(i);
            }
            proof {
                lemma_lookup_skip_step(self.entries@, key@, i as int);
            }
            i = i + 1;
        }
        None
    }

    /// The index of the expiration record carrying exactly `(when, id)`.
    fn find_exp(&self, when: u64, id: u64) -> (r: Option<usize>)
        ensures
            r matches Some(p) ==> p < self.expirations@.len()
                && self.expirations@[p as int].when == when && self.expirations@[p as int].id
                == id,
            r is None ==> forall|p: int|
                0 <= p < self.expirations@.len() ==> !(self.expirations@[p].when == when
                    && self.expirations@[p].id == id),
    {
        let n = self.expirations.len();
        let mut i: usize = 0;
        while i < n
            invariant
                n == self.expirations@.len(),
                i <= n,
                forall|p: int|
                    0 <= p < i ==> !(self.expirations@[p].when == when
                        && self.expirations@[p].id == id),
            decreases n - i,
        {
            if self.expirations[i].when == when && self.expirations[i].id == id {
                return Some(i);
            }
            i = i + 1;
        }
        None
    }

    /// Where a fresh record `(when, id)` belongs in the sorted record list.
    fn exp_insert_pos(&self, when: u64, id: u64) -> (r: usize)
        requires
            exp_sorted(self.expirations@),
            forall|p: int|
                0 <= p < self.expirations@.len() ==> !(self.expirations@[p].when == when
                    && self.expirations@[p].id == id),
        ensures
            r <= self.expirations@.len(),
            forall|p: int|
                0 <= p < r ==> (self.expirations@[p].when < when || (self.expirations@[p].when
                    == when && self.expirations@[p].id < id)),
            forall|p: int|
                r <= p < self.expirations@.len() ==> (when < self.expirations@[p].when || (when
                    == self.expirations@[p].when && id < self.expirations@[p].id)),
    {
        let n = self.expirations.len();
        let mut i: usize = 0;
        while i < n && (self.expirations[i].when < when || (self.expirations[i].when == when
            && self.expirations[i].id < id))
            invariant
                n == self.expirations@.len(),
                i <= n,
                exp_sorted(self.expirations@),
                forall|p: int|
                    0 <= p < self.expirations@.len() ==> !(self.expirations@[p].when == when
                        && self.expirations@[p].id == id),
                forall|p: int|
                    0 <= p < i ==> (self.expirations@[p].when < when
                        || (self.expirations@[p].when == when && self.expirations@[p].id < id)),
            decreases n - i,
        {
            i = i + 1;
        }
        proof {
            assert forall|p: int| i <= p < self.expirations@.len() implies (when
                < self.expirations@[p].when || (when == self.expirations@[p].when && id
                < self.expirations@[p].id)) by {
                if p > i as int {
                    assert(exp_before(self.expirations@[i as int], self.expirations@[p]));
                }
            }
        }
        i
    }

    /// Whether the store has been told to shut down.
    pub fn is_shutdown(&self) -> (r: bool)
        ensures
            r == self.shutdown,
    {
        self.shutdown
    }

    /// Records the shutdown request. The owning shell signals the eviction
    /// routine after releasing the lock; the flag is what makes it exit.
    pub fn set_shutdown(&mut self)
        ensures
            final(self).entries == old(self).entries,
            final(self).expirations == old(self).expirations,
            final(self).next_id == old(self).next_id,
            final(self).shutdown,
    {
        self.shutdown = true;
    }

    /// Writes `value` under `key` with an optional time-to-live (milliseconds),
    /// as one atomic mutation of the aggregate state: a fresh id is assigned,
    /// the replaced entry's expiration record (if any) is retired, the new
    /// record (if any) is filed in `(when, id)` order, and the caller learns
    /// whether the eviction routine must be woken — exactly when the new
    /// expiration comes before every previously tracked one.
    #[verifier::rlimit(100)]
    #[verifier::spinoff_prover]
    pub fn set(&mut self, key: String, value: Vec<u8>, ttl: Option<u64>, now: u64) -> (notify:
        bool)
        requires
            old(self).wf(),
            old(self).next_id < u64::MAX,
        ensures
            spec_set_rel(*old(self), *final(self), key@, value@, ttl, now, notify),
    {
        let ghost s0 = *self;
        let ghost e0 = s0.entries@;
        let ghost x0 = s0.expirations@;
        let ghost gkey = key@;

        let id = self.next_id;
        self.next_id = id + 1;

        let expires_at: Option<u64> = match ttl {
            Some(t) => if t <= u64::MAX - now {
                Some(now + t)
            } else {
                Some(u64::MAX)
            },
            None => None,
        };
        proof {
            assert(expires_at == spec_expiry(now, ttl));
        }

        let notify = match expires_at {
            Some(w) => match self.next_expiration() {
                Some(e) => e > w,
                None => true,
            },
            None => false,
        };

        let record_key = key.clone();
        let found = self.find_key(key.as_str());
        let slot = Slot { key, entry: Entry { id, data: value, expires_at } };
        let ghost gslot = slot;

        // Every record id names an entry of the old state, so all are below `id`.
        proof {
            assert forall|q: int| 0 <= q < x0.len() implies x0[q].id < id by {
                assert(spec_lookup(e0, x0[q].key@) matches Some(e) && e.id == x0[q].id);
                lemma_lookup_some_index(e0, x0[q].key@);
            }
        }

        let ghost mut jg: int = -1;
        let ghost mut remp: int = -1;
        match found {
            Some(j) => {
                proof {
                    jg = j as int;
                }
                let prev_id = self.entries[j].entry.id;
                let prev_exp = self.entries[j].entry.expires_at;
                if let Some(w0) = prev_exp {
                    proof {
                        assert(exp_contains(x0, w0, prev_id, e0[j as int].key@));
                    }
                    let popt = self.find_exp(w0, prev_id);
                    match popt {
                        Some(p) => {
                            proof {
                                remp = p as int;
                                lemma_records_of_key(s0, j as int);
                                assert(x0[p as int].key@ == gkey);
                                // no other record carries this key
                                assert forall|q: int|
                                    0 <= q < x0.len() && q != p as int implies x0[q].key@
                                    != gkey by {
                                    if x0[q].key@ == gkey {
                                        assert(x0[q].when == w0 && x0[q].id == prev_id);
                                        if q < p as int {
                                            assert(exp_before(x0[q], x0[p as int]));
                                        } else {
                                            assert(exp_before(x0[p as int], x0[q]));
                                        }
                                    }
                                }
                            }
                            self.expirations.remove(p);
                        },
                        None => {
                            proof {
                                assert(false);
                            }
                        },
                    }
                } else {
                    proof {
                        // no record carries this key: its entry has no expiration
                        assert forall|q: int| 0 <= q < x0.len() implies x0[q].key@ != gkey by {
                            lemma_records_of_key(s0, j as int);
                        }
                    }
                }
                self.entries.remove(j);
                self.entries.push(slot);
            },
            None => {
                proof {
                    lemma_lookup_none(e0, gkey);
                    assert forall|q: int| 0 <= q < x0.len() implies x0[q].key@ != gkey by {
                        assert(spec_lookup(e0, x0[q].key@) is Some);
                    }
                }
                self.entries.push(slot);
            },
        }
        let ghost x1 = self.expirations@;
        let ghost ef = self.entries@;

        proof {
            if remp >= 0 {
                x0.remove_ensures(remp);
            }
            if jg >= 0 {
                e0.remove_ensures(jg);
            }
            assert forall|q: int| 0 <= q < x1.len() implies !(x1[q].when
                == spec_expiry(now, ttl)->Some_0 && x1[q].id == id) by {
                assert(x1[q] == x0[if q < remp || remp < 0 {
                    q
                } else {
                    q + 1
                }]);
            }
            assert(exp_sorted(x1)) by {
                assert forall|a: int, b: int| 0 <= a < b < x1.len() implies exp_before(
                    x1[a],
                    x1[b],
                ) by {
                    assert(x1[a] == x0[if a < remp || remp < 0 {
                        a
                    } else {
                        a + 1
                    }]);
                    assert(x1[b] == x0[if b < remp || remp < 0 {
                        b
                    } else {
                        b + 1
                    }]);
                }
            }
        }

        let ghost mut insp: int = -1;
        let ghost mut grec = ExpRecord { when: 0, id: 0, key: record_key };
        if let Some(w) = expires_at {
            let pos = self.exp_insert_pos(w, id);
            proof {
                insp = pos as int;
                grec = ExpRecord { when: w, id, key: record_key };
            }
            self.expirations.insert(pos, ExpRecord { when: w, id, key: record_key });
            proof {
                x1.insert_ensures(insp, grec);
            }
        }
        let ghost xf = self.expirations@;

        proof {
            let ghost wnew = spec_expiry(now, ttl);
            lemma_records_update(x0, x1, xf, remp, insp, grec, gkey, id, wnew);
            lemma_sorted_update(x0, x1, xf, remp, insp, grec);
            lemma_entries_update(e0, ef, jg, gslot, gkey, id);
            lemma_lockstep(s0, e0, x0, ef, xf, jg, gkey, gslot, id, wnew);
        }
        notify
    }

    /// Evicts every entry whose expiration is at or before `now`, walking the
    /// records in ascending order and stopping at the first one still in the
    /// future; returns that record's instant as the next time to wake, or
    /// nothing when no expiration remains. A store already shut down is left
    /// untouched and reports nothing to wait for.
    #[verifier::rlimit(50)]
    pub fn purge_expired_keys(&mut self, now: u64) -> (r: Option<u64>)
        requires
            old(self).wf(),
        ensures
            spec_purge_rel(*old(self), *final(self), now, r),
    {
        if self.shutdown {
            return None;
        }
        let ghost s0 = *self;
        while self.expirations.len() > 0 && self.expirations[0].when <= now
            invariant
                self.wf(),
                self.next_id == s0.next_id,
                self.shutdown == s0.shutdown,
                !s0.shutdown,
                forall|w: u64, i: u64, k: Seq<char>|
                    #![trigger exp_contains(self.expirations@, w, i, k)]
                    exp_contains(self.expirations@, w, i, k) ==> exp_contains(
                        s0.expirations@,
                        w,
                        i,
                        k,
                    ),
                forall|w: u64, i: u64, k: Seq<char>|
                    #![trigger exp_contains(s0.expirations@, w, i, k)]
                    exp_contains(s0.expirations@, w, i, k) && w > now ==> exp_contains(
                        self.expirations@,
                        w,
                        i,
                        k,
                    ),
                forall|k: Seq<char>|
                    #![trigger spec_lookup(self.entries@, k)]
                    spec_lookup(self.entries@, k) == spec_lookup(s0.entries@, k)
                        || (spec_lookup(self.entries@, k) is None && expired_in(
                        s0.entries@,
                        k,
                        now,
                    )),
            decreases self.expirations@.len(),
        {
            let key0 = self.expirations[0].key.clone();
            let ghost cur = *self;
            proof {
                assert(spec_lookup(cur.entries@, key0@) matches Some(e) && e.id
                    == cur.expirations@[0].id && e.expires_at == Some(cur.expirations@[0].when));
            }
            let found = self.find_key(key0.as_str());
            match found {
                Some(j) => {
                    self.entries.remove(j);
                    self.expirations.remove(0);
                    proof {
                        lemma_purge_step(cur, *self, j as int);
                        assert(cur.expirations@[0].when <= now);
                    }
                },
                None => {
                    proof {
                        assert(false);
                    }
                },
            }
        }
        proof {
            // everything still on file expires strictly in the future
            assert forall|q: int| 0 <= q < self.expirations@.len() implies self.expirations@[q].when
                > now by {
                if q > 0 {
                    assert(exp_before(self.expirations@[0], self.expirations@[q]));
                }
            }
            // so every still-present entry with an expiration is unexpired,
            // and every expired entry of the old state is gone
            assert forall|k: Seq<char>|
                spec_lookup(self.entries@, k) == (match spec_lookup(s0.entries@, k) {
                    Some(e) => if e.expires_at matches Some(t) && t <= now {
                        None
                    } else {
                        Some(e)
                    },
                    None => None::<Entry>,
                }) by {
                if spec_lookup(self.entries@, k) is Some {
                    let e = spec_lookup(self.entries@, k)->Some_0;
                    if e.expires_at is Some {
                        let t = e.expires_at->Some_0;
                        lemma_lookup_some_index(self.entries@, k);
                        let m = choose|m: int|
                            0 <= m < self.entries@.len() && self.entries@[m].key@ == k
                                && spec_lookup(self.entries@, k) == Some(self.entries@[m].entry);
                        assert(exp_contains(self.expirations@, t, e.id, k));
                        let q = choose|q: int|
                            0 <= q < self.expirations@.len() && self.expirations@[q].when == t
                                && self.expirations@[q].id == e.id && self.expirations@[q].key@
                                == k;
                        assert(t > now);
                    }
                }
            }
        }
        if self.expirations.len() > 0 {
            Some(self.expirations[0].when)
        } else {
            None
        }
    }

    /// The instant of the soonest tracked expiration: the head of the sorted
    /// record list.
    pub fn next_expiration(&self) -> (r: Option<u64>)
        ensures
            r == self.spec_next_expiration(),
    {
        if self.expirations.len() > 0 {
            Some(self.expirations[0].when)
        } else {
            None
        }
    }
}

/// Under well-formedness, the records carrying the key of slot `j` hold
/// exactly that entry's expiration instant and id — and conversely, a record
/// holding that entry's id carries that slot's key.
pub proof fn lemma_records_of_key(s: State, j: int)
    requires
        s.wf(),
        0 <= j < s.entries@.len(),
    ensures
        forall|q: int|
            0 <= q < s.expirations@.len() && #[trigger] s.expirations@[q].key@
                == s.entries@[j].key@ ==> s.entries@[j].entry.expires_at == Some(
                s.expirations@[q].when,
            ) && s.expirations@[q].id == s.entries@[j].entry.id,
        forall|q: int|
            0 <= q < s.expirations@.len() && #[trigger] s.expirations@[q].id
                == s.entries@[j].entry.id ==> s.expirations@[q].key@ == s.entries@[j].key@,
{
    lemma_index_lookup(s.entries@, s.entries@[j].key@, j);
    assert forall|q: int|
        0 <= q < s.expirations@.len() && #[trigger] s.expirations@[q].id
            == s.entries@[j].entry.id implies s.expirations@[q].key@
        == s.entries@[j].key@ by {
        assert(spec_lookup(s.entries@, s.expirations@[q].key@) matches Some(e) && e.id
            == s.expirations@[q].id);
        lemma_lookup_some_index(s.entries@, s.expirations@[q].key@);
        let m = choose|m: int|
            0 <= m < s.entries@.len() && s.entries@[m].key@ == s.expirations@[q].key@
                && spec_lookup(s.entries@, s.expirations@[q].key@) == Some(s.entries@[m].entry);
        assert(s.entries@[m].entry.id == s.entries@[j].entry.id);
        assert(m == j);
    }
}

/// What a write does to the record list: every record of another key
/// survives, every record of the written key is gone, and the fresh record is
/// present exactly when an expiration is tracked.
pub proof fn lemma_records_update(
    x0: Seq<ExpRecord>,
    x1: Seq<ExpRecord>,
    xf: Seq<ExpRecord>,
    remp: int,
    insp: int,
    grec: ExpRecord,
    gkey: Seq<char>,
    id: u64,
    wnew: Option<u64>,
)
    requires
        remp < 0 ==> x1 == x0,
        remp >= 0 ==> 0 <= remp < x0.len() && x1 == x0.remove(remp) && x0[remp].key@ == gkey,
        forall|q: int| 0 <= q < x0.len() && q != remp ==> x0[q].key@ != gkey,
        forall|q: int| 0 <= q < x0.len() ==> x0[q].id < id,
        insp < 0 ==> xf == x1 && wnew is None,
        insp >= 0 ==> 0 <= insp <= x1.len() && xf == x1.insert(insp, grec) && wnew == Some(
            grec.when,
        ) && grec.id == id && grec.key@ == gkey,
    ensures
        forall|w: u64, i: u64, k: Seq<char>|
            #![trigger exp_contains(xf, w, i, k)]
            #![trigger exp_contains(x0, w, i, k)]
            exp_contains(xf, w, i, k) <==> ((exp_contains(x0, w, i, k) && k != gkey) || (k
                == gkey && wnew == Some(w) && i == id)),
{
    if remp >= 0 {
        x0.remove_ensures(remp);
    }
    if insp >= 0 {
        x1.insert_ensures(insp, grec);
    }
    assert forall|w: u64, i: u64, k: Seq<char>|
        exp_contains(xf, w, i, k) <==> ((exp_contains(x0, w, i, k) && k != gkey) || (k == gkey
            && wnew == Some(w) && i == id)) by {
        if exp_contains(xf, w, i, k) {
            let q = choose|q: int|
                0 <= q < xf.len() && xf[q].when == w && xf[q].id == i && xf[q].key@ == k;
            if q == insp {
                assert(k == gkey && wnew == Some(w) && i == id);
            } else {
                let q1 = if q < insp || insp < 0 {
                    q
                } else {
                    q - 1
                };
                assert(x1[q1] == xf[q]);
                let q0 = if q1 < remp || remp < 0 {
                    q1
                } else {
                    q1 + 1
                };
                assert(x0[q0] == x1[q1]);
                assert(exp_contains(x0, w, i, k));
                assert(k != gkey);
            }
        }
        if exp_contains(x0, w, i, k) && k != gkey {
            let q0 = choose|q0: int|
                0 <= q0 < x0.len() && x0[q0].when == w && x0[q0].id == i && x0[q0].key@ == k;
            assert(q0 != remp);
            let q1 = if q0 < remp || remp < 0 {
                q0
            } else {
                q0 - 1
            };
            assert(x1[q1] == x0[q0]);
            let q = if q1 < insp || insp < 0 {
                q1
            } else {
                q1 + 1
            };
            assert(xf[q] == x1[q1]);
            assert(exp_contains(xf, w, i, k));
        }
        if k == gkey && wnew == Some(w) && i == id {
            assert(insp >= 0);
            assert(xf[insp].when == w && xf[insp].id == i && xf[insp].key@ == k);
            assert(exp_contains(xf, w, i, k));
        }
    }
}

/// Filing a fresh record at its ordered position keeps the list sorted.
pub proof fn lemma_sorted_update(
    x0: Seq<ExpRecord>,
    x1: Seq<ExpRecord>,
    xf: Seq<ExpRecord>,
    remp: int,
    insp: int,
    grec: ExpRecord,
)
    requires
        exp_sorted(x1),
        insp < 0 ==> xf == x1,
        insp >= 0 ==> 0 <= insp <= x1.len() && xf == x1.insert(insp, grec),
        forall|p: int| insp >= 0 && 0 <= p < insp ==> exp_before(x1[p], grec),
        forall|p: int| insp >= 0 && insp <= p < x1.len() ==> exp_before(grec, x1[p]),
    ensures
        exp_sorted(xf),
{
    if insp >= 0 {
        x1.insert_ensures(insp, grec);
        assert forall|a: int, b: int| 0 <= a < b < xf.len() implies exp_before(
            xf[a],
            xf[b],
        ) by {
            if a == insp {
                assert(xf[b] == x1[b - 1]);
            } else if b == insp {
                assert(xf[a] == x1[a]);
            } else {
                let a1 = if a < insp {
                    a
                } else {
                    a - 1
                };
                let b1 = if b < insp {
                    b
                } else {
                    b - 1
                };
                assert(xf[a] == x1[a1] && xf[b] == x1[b1]);
                assert(exp_before(x1[a1], x1[b1]));
            }
        }
    }
}

/// What a write does to the slots: the written key now maps to the fresh
/// entry, every other key maps to what it mapped to before, and uniqueness of
/// keys and ids is kept.
pub proof fn lemma_entries_update(
    e0: Seq<Slot>,
    ef: Seq<Slot>,
    jg: int,
    gslot: Slot,
    gkey: Seq<char>,
    id: u64,
)
    requires
        keys_unique(e0),
        forall|i: int, j: int| 0 <= i < j < e0.len() ==> e0[i].entry.id != e0[j].entry.id,
        forall|i: int| 0 <= i < e0.len() ==> e0[i].entry.id < id,
        jg < 0 ==> ef == e0.push(gslot) && (forall|i: int|
            0 <= i < e0.len() ==> e0[i].key@ != gkey),
        jg >= 0 ==> 0 <= jg < e0.len() && e0[jg].key@ == gkey && ef == e0.remove(jg).push(
            gslot,
        ),
        gslot.key@ == gkey,
        gslot.entry.id == id,
    ensures
        keys_unique(ef),
        forall|i: int, j: int| 0 <= i < j < ef.len() ==> ef[i].entry.id != ef[j].entry.id,
        forall|i: int| 0 <= i < ef.len() ==> ef[i].entry.id <= id,
        ef.len() > 0 && ef[ef.len() - 1] == gslot,
        ef.len() == if jg < 0 {
            e0.len() + 1
        } else {
            e0.len()
        },
        forall|m: int|
            0 <= m < ef.len() - 1 ==> #[trigger] ef[m] == e0[if m < jg || jg < 0 {
                m
            } else {
                m + 1
            }] && ef[m].key@ != gkey,
        spec_lookup(ef, gkey) == Some(gslot.entry),
        forall|k: Seq<char>|
            k != gkey ==> #[trigger] spec_lookup(ef, k) == spec_lookup(e0, k),
{
    if jg >= 0 {
        e0.remove_ensures(jg);
    }
    assert(ef[ef.len() - 1] == gslot);
    assert forall|m: int| 0 <= m < ef.len() - 1 implies ef[m] == e0[if m < jg || jg < 0 {
        m
    } else {
        m + 1
    }] && ef[m].key@ != gkey by {
        let m0 = if m < jg || jg < 0 {
            m
        } else {
            m + 1
        };
        assert(ef[m] == e0[m0]);
        if jg >= 0 && m0 != jg {
            assert(e0[m0].key@ != e0[jg].key@);
        }
    }
    assert(keys_unique(ef));
    lemma_index_lookup(ef, gkey, ef.len() - 1);
    assert forall|k: Seq<char>| k != gkey implies spec_lookup(ef, k) == spec_lookup(e0, k) by {
        if spec_lookup(e0, k) is Some {
            lemma_lookup_some_index(e0, k);
            let m0 = choose|m0: int|
                0 <= m0 < e0.len() && e0[m0].key@ == k && spec_lookup(e0, k) == Some(
                    e0[m0].entry,
                );
            assert(m0 != jg);
            let m = if m0 < jg || jg < 0 {
                m0
            } else {
                m0 - 1
            };
            assert(ef[m] == e0[m0]);
            lemma_index_lookup(ef, k, m);
        } else {
            lemma_lookup_none(e0, k);
            lemma_no_key_lookup_none(ef, k);
        }
    }
}

/// After a write, the entries and the record list are still in lock-step.
pub proof fn lemma_lockstep(
    s0: State,
    e0: Seq<Slot>,
    x0: Seq<ExpRecord>,
    ef: Seq<Slot>,
    xf: Seq<ExpRecord>,
    jg: int,
    gkey: Seq<char>,
    gslot: Slot,
    id: u64,
    wnew: Option<u64>,
)
    requires
        s0.wf(),
        s0.entries@ == e0,
        s0.expirations@ == x0,
        gslot.key@ == gkey,
        gslot.entry.id == id,
        gslot.entry.expires_at == wnew,
        ef.len() > 0 && ef[ef.len() - 1] == gslot,
        jg >= 0 ==> 0 <= jg < e0.len(),
        ef.len() == if jg < 0 {
            e0.len() + 1
        } else {
            e0.len()
        },
        forall|m: int|
            0 <= m < ef.len() - 1 ==> #[trigger] ef[m] == e0[if m < jg || jg < 0 {
                m
            } else {
                m + 1
            }] && ef[m].key@ != gkey,
        spec_lookup(ef, gkey) == Some(gslot.entry),
        forall|k: Seq<char>|
            k != gkey ==> #[trigger] spec_lookup(ef, k) == spec_lookup(e0, k),
        forall|w: u64, i: u64, k: Seq<char>|
            #![trigger exp_contains(xf, w, i, k)]
            #![trigger exp_contains(x0, w, i, k)]
            exp_contains(xf, w, i, k) <==> ((exp_contains(x0, w, i, k) && k != gkey) || (k
                == gkey && wnew == Some(w) && i == id)),
    ensures
        forall|m: int|
            0 <= m < ef.len() ==> (#[trigger] ef[m].entry.expires_at matches Some(t)
                ==> exp_contains(xf, t, ef[m].entry.id, ef[m].key@)),
        forall|q: int|
            0 <= q < xf.len() ==> (#[trigger] spec_lookup(ef, xf[q].key@) matches Some(e)
                && e.id == xf[q].id && e.expires_at == Some(xf[q].when)),
{
    assert forall|m: int| 0 <= m < ef.len() implies (#[trigger] ef[m].entry.expires_at
        matches Some(t) ==> exp_contains(xf, t, ef[m].entry.id, ef[m].key@)) by {
        if ef[m].entry.expires_at is Some {
            let t = ef[m].entry.expires_at->Some_0;
            if m == ef.len() - 1 {
                assert(wnew == Some(t) && ef[m].entry.id == id && ef[m].key@ == gkey);
                assert(exp_contains(xf, t, ef[m].entry.id, ef[m].key@));
            } else {
                let m0 = if m < jg || jg < 0 {
                    m
                } else {
                    m + 1
                };
                assert(ef[m] == e0[m0]);
                assert(s0.entries@[m0].entry.expires_at == Some(t));
                assert(exp_contains(x0, t, e0[m0].entry.id, e0[m0].key@));
                assert(exp_contains(xf, t, ef[m].entry.id, ef[m].key@));
            }
        }
    }
    assert forall|q: int| 0 <= q < xf.len() implies (#[trigger] spec_lookup(ef, xf[q].key@)
        matches Some(e) && e.id == xf[q].id && e.expires_at == Some(xf[q].when)) by {
        assert(exp_contains(xf, xf[q].when, xf[q].id, xf[q].key@));
        if xf[q].key@ == gkey {
            assert(spec_lookup(ef, gkey) == Some(gslot.entry));
            assert(wnew == Some(xf[q].when) && xf[q].id == id);
        } else {
            assert(exp_contains(x0, xf[q].when, xf[q].id, xf[q].key@));
            let q0 = choose|q0: int|
                0 <= q0 < x0.len() && x0[q0].when == xf[q].when && x0[q0].id == xf[q].id
                    && x0[q0].key@ == xf[q].key@;
            assert(spec_lookup(e0, x0[q0].key@) matches Some(e) && e.id == x0[q0].id
                && e.expires_at == Some(x0[q0].when));
        }
    }
}

/// Evicting one expired key — dropping the head expiration record and the
/// slot it points at — keeps the store well-formed, empties the evicted key,
/// and leaves every other key and record untouched.
pub proof fn lemma_purge_step(cur: State, nxt: State, j: int)
    requires
        cur.wf(),
        cur.expirations@.len() > 0,
        0 <= j < cur.entries@.len(),
        cur.entries@[j].key@ == cur.expirations@[0].key@,
        cur.entries@[j].entry.id == cur.expirations@[0].id,
        nxt.entries@ == cur.entries@.remove(j),
        nxt.expirations@ == cur.expirations@.remove(0),
        nxt.next_id == cur.next_id,
        nxt.shutdown == cur.shutdown,
    ensures
        nxt.wf(),
        forall|w: u64, i: u64, k: Seq<char>|
            #![trigger exp_contains(nxt.expirations@, w, i, k)]
            #![trigger exp_contains(cur.expirations@, w, i, k)]
            exp_contains(nxt.expirations@, w, i, k) <==> (exp_contains(
                cur.expirations@,
                w,
                i,
                k,
            ) && !(w == cur.expirations@[0].when && i == cur.expirations@[0].id)),
        spec_lookup(nxt.entries@, cur.expirations@[0].key@) is None,
        forall|k: Seq<char>|
            k != cur.expirations@[0].key@ ==> #[trigger] spec_lookup(nxt.entries@, k)
                == spec_lookup(cur.entries@, k),
{
    let e0 = cur.entries@;
    let x0 = cur.expirations@;
    let k0 = x0[0].key@;
    e0.remove_ensures(j);
    x0.remove_ensures(0);
    lemma_records_of_key(cur, j);
    // record 0 is the only record carrying this key
    assert forall|q: int| 1 <= q < x0.len() implies x0[q].key@ != k0 by {
        if x0[q].key@ == k0 {
            assert(x0[q].id == e0[j].entry.id && x0[0].id == e0[j].entry.id);
            assert(e0[j].entry.expires_at == Some(x0[q].when) && e0[j].entry.expires_at
                == Some(x0[0].when));
            assert(exp_before(x0[0], x0[q]));
        }
    }
    // records: everything but the head survives, shifted down by one
    assert forall|w: u64, i: u64, k: Seq<char>|
        exp_contains(nxt.expirations@, w, i, k) <==> (exp_contains(x0, w, i, k) && !(w
            == x0[0].when && i == x0[0].id)) by {
        if exp_contains(nxt.expirations@, w, i, k) {
            let q = choose|q: int|
                0 <= q < nxt.expirations@.len() && nxt.expirations@[q].when == w
                    && nxt.expirations@[q].id == i && nxt.expirations@[q].key@ == k;
            assert(nxt.expirations@[q] == x0[q + 1]);
            assert(exp_contains(x0, w, i, k));
            assert(exp_before(x0[0], x0[q + 1]));
        }
        if exp_contains(x0, w, i, k) && !(w == x0[0].when && i == x0[0].id) {
            let q = choose|q: int|
                0 <= q < x0.len() && x0[q].when == w && x0[q].id == i && x0[q].key@ == k;
            assert(q != 0);
            assert(nxt.expirations@[q - 1] == x0[q]);
            assert(exp_contains(nxt.expirations@, w, i, k));
        }
    }
    // lookups: the evicted key is gone, the others are untouched
    assert forall|m: int| 0 <= m < nxt.entries@.len() implies #[trigger] nxt.entries@[m]
        == e0[if m < j {
        m
    } else {
        m + 1
    }] && nxt.entries@[m].key@ != k0 by {
        let m0 = if m < j {
            m
        } else {
            m + 1
        };
        assert(nxt.entries@[m] == e0[m0]);
        assert(e0[m0].key@ != e0[j].key@);
    }
    lemma_no_key_lookup_none(nxt.entries@, k0);
    assert forall|k: Seq<char>| k != k0 implies spec_lookup(nxt.entries@, k) == spec_lookup(
        e0,
        k,
    ) by {
        if spec_lookup(e0, k) is Some {
            lemma_lookup_some_index(e0, k);
            let m0 = choose|m0: int|
                0 <= m0 < e0.len() && e0[m0].key@ == k && spec_lookup(e0, k) == Some(
                    e0[m0].entry,
                );
            assert(m0 != j);
            let m = if m0 < j {
                m0
            } else {
                m0 - 1
            };
            assert(nxt.entries@[m] == e0[m0]);
            lemma_index_lookup(nxt.entries@, k, m);
        } else {
            lemma_lookup_none(e0, k);
            lemma_no_key_lookup_none(nxt.entries@, k);
        }
    }
    // well-formedness of the shrunken state
    assert(keys_unique(nxt.entries@));
    assert(exp_sorted(nxt.expirations@));
    assert forall|m: int| 0 <= m < nxt.entries@.len() implies (
    #[trigger] nxt.entries@[m].entry.expires_at matches Some(t) ==> exp_contains(
        nxt.expirations@,
        t,
        nxt.entries@[m].entry.id,
        nxt.entries@[m].key@,
    )) by {
        if nxt.entries@[m].entry.expires_at is Some {
            let t = nxt.entries@[m].entry.expires_at->Some_0;
            let m0 = if m < j {
                m
            } else {
                m + 1
            };
            assert(cur.entries@[m0].entry.expires_at == Some(t));
            assert(exp_contains(x0, t, e0[m0].entry.id, e0[m0].key@));
            assert(!(t == x0[0].when && e0[m0].entry.id == x0[0].id));
            assert(exp_contains(nxt.expirations@, t, nxt.entries@[m].entry.id,
                nxt.entries@[m].key@));
        }
    }
    assert forall|q: int| 0 <= q < nxt.expirations@.len() implies (#[trigger] spec_lookup(
        nxt.entries@,
        nxt.expirations@[q].key@,
    ) matches Some(e) && e.id == nxt.expirations@[q].id && e.expires_at == Some(
        nxt.expirations@[q].when,
    )) by {
        assert(nxt.expirations@[q] == x0[q + 1]);
        assert(spec_lookup(e0, x0[q + 1].key@) matches Some(e) && e.id == x0[q + 1].id
            && e.expires_at == Some(x0[q + 1].when));
        assert(x0[q + 1].key@ != k0);
    }
}

/// Skipping past a slot whose key is not `k` does not change what `k` maps to.
pub proof fn lemma_lookup_skip_step(s: Seq<Slot>, k: Seq<char>, i: int)
    requires
        0 <= i < s.len(),
        s[i].key@ != k,
    ensures
        spec_lookup(s.skip(i), k) == spec_lookup(s.skip(i + 1), k),
{
    assert(s.skip(i).drop_first() =~= s.skip(i + 1));
    assert(s.skip(i)[0] == s[i]);
}

/// A successful lookup names some slot of the sequence.
pub proof fn lemma_lookup_some_index(s: Seq<Slot>, k: Seq<char>)
    requires
        spec_lookup(s, k) is Some,
    ensures
        exists|i: int|
            0 <= i < s.len() && s[i].key@ == k && spec_lookup(s, k) == Some(s[i].entry),
    decreases s.len(),
{
    if s[0].key@ == k {
        assert(0 <= 0 < s.len() && s[0].key@ == k && spec_lookup(s, k) == Some(s[0].entry));
    } else {
        lemma_lookup_some_index(s.drop_first(), k);
        let i = choose|i: int|
            0 <= i < s.drop_first().len() && s.drop_first()[i].key@ == k && spec_lookup(
                s.drop_first(),
                k,
            ) == Some(s.drop_first()[i].entry);
        assert(s[i + 1] == s.drop_first()[i]);
    }
}

/// Under unique keys, a slot holding `k` is what lookup returns.
pub proof fn lemma_index_lookup(s: Seq<Slot>, k: Seq<char>, i: int)
    requires
        keys_unique(s),
        0 <= i < s.len(),
        s[i].key@ == k,
    ensures
        spec_lookup(s, k) == Some(s[i].entry),
    decreases s.len(),
{
    if i == 0 {
    } else {
        assert(s[0].key@ != k);
        assert(keys_unique(s.drop_first())) by {
            assert(forall|a: int, b: int|
                0 <= a < b < s.drop_first().len() ==> s.drop_first()[a] == s[a + 1]
                    && s.drop_first()[b] == s[b + 1]);
        }
        assert(s.drop_first()[i - 1] == s[i]);
        lemma_index_lookup(s.drop_first(), k, i - 1);
    }
}

/// No slot holding `k` means lookup fails.
pub proof fn lemma_no_key_lookup_none(s: Seq<Slot>, k: Seq<char>)
    requires
        forall|i: int| 0 <= i < s.len() ==> s[i].key@ != k,
    ensures
        spec_lookup(s, k) is None,
    decreases s.len(),
{
    if s.len() > 0 {
        assert(forall|i: int|
            0 <= i < s.drop_first().len() ==> s.drop_first()[i] == s[i + 1]);
        lemma_no_key_lookup_none(s.drop_first(), k);
    }
}

/// A lookup that fails means no slot holds `k`.
pub proof fn lemma_lookup_none(s: Seq<Slot>, k: Seq<char>)
    requires
        spec_lookup(s, k) is None,
    ensures
        forall|i: int| 0 <= i < s.len() ==> s[i].key@ != k,
    decreases s.len(),
{
    if s.len() > 0 {
        lemma_lookup_none(s.drop_first(), k);
        assert(forall|i: int| 1 <= i < s.len() ==> s[i] == s.drop_first()[i - 1]);
    }
}

/// A key never set is absent: a store holding no entries maps every key to
/// nothing.
pub proof fn lemma_fresh_store_all_absent(s: State, k: Seq<char>)
    requires
        s.entries@.len() == 0,
    ensures
        spec_lookup(s.entries@, k) is None,
{
}

/// A key never set stays absent across a write: setting one key creates no
/// other.
pub proof fn lemma_absent_key_unmoved_by_set(
    s0: State,
    s1: State,
    key: Seq<char>,
    value: Seq<u8>,
    ttl: Option<u64>,
    now: u64,
    notify: bool,
    k: Seq<char>,
)
    requires
        spec_set_rel(s0, s1, key, value, ttl, now, notify),
        k != key,
        spec_lookup(s0.entries@, k) is None,
    ensures
        spec_lookup(s1.entries@, k) is None,
{
}

/// A key never set stays absent across a purge: eviction removes entries,
/// it never creates one.
pub proof fn lemma_absent_key_unmoved_by_purge(
    s0: State,
    s1: State,
    now: u64,
    r: Option<u64>,
    k: Seq<char>,
)
    requires
        spec_purge_rel(s0, s1, now, r),
        spec_lookup(s0.entries@, k) is None,
    ensures
        spec_lookup(s1.entries@, k) is None,
{
}

/// A value written without a time-to-live is returned indefinitely: no purge,
/// at any instant, touches an entry that tracks no expiration, and writes to
/// other keys leave it as it stands.
pub proof fn lemma_unexpiring_value_survives(
    s0: State,
    s1: State,
    now: u64,
    r: Option<u64>,
    k: Seq<char>,
)
    requires
        spec_purge_rel(s0, s1, now, r),
        spec_lookup(s0.entries@, k) matches Some(e) && e.expires_at is None,
    ensures
        spec_lookup(s1.entries@, k) == spec_lookup(s0.entries@, k),
{
}

/// What a time-to-live means: a purge before the entry's expiration instant
/// leaves the value readable, a purge at or past it removes the key.
pub proof fn lemma_expiration_semantics(
    s0: State,
    s1: State,
    now: u64,
    r: Option<u64>,
    k: Seq<char>,
    t: u64,
)
    requires
        spec_purge_rel(s0, s1, now, r),
        !s0.shutdown,
        spec_lookup(s0.entries@, k) matches Some(e) && e.expires_at == Some(t),
    ensures
        now < t ==> spec_lookup(s1.entries@, k) == spec_lookup(s0.entries@, k),
        now >= t ==> spec_lookup(s1.entries@, k) is None,
{
}

/// A value written without a time-to-live is returned indefinitely: a later
/// write to any other key and a purge at any instant leave it exactly as
/// written.
pub proof fn lemma_unexpiring_value_indefinite(
    s0: State,
    s1: State,
    s2: State,
    s3: State,
    k: Seq<char>,
    v: Seq<u8>,
    now0: u64,
    notify0: bool,
    k2: Seq<char>,
    v2: Seq<u8>,
    ttl2: Option<u64>,
    now2: u64,
    notify2: bool,
    now3: u64,
    r: Option<u64>,
)
    requires
        spec_set_rel(s0, s1, k, v, None, now0, notify0),
        spec_set_rel(s1, s2, k2, v2, ttl2, now2, notify2),
        k2 != k,
        spec_purge_rel(s2, s3, now3, r),
    ensures
        spec_lookup(s3.entries@, k) matches Some(e) && e.data@ == v && e.expires_at is None,
{
    assert(spec_lookup(s2.entries@, k) matches Some(e) && e.data@ == v && e.expires_at
        is None);
    if s2.shutdown {
        assert(s3 == s2);
    }
}

/// What writing with a time-to-live means, end to end: until the deadline a
/// purge leaves the value readable; at or past it, the key is evicted.
pub proof fn lemma_ttl_write_then_purge(
    s0: State,
    s1: State,
    s2: State,
    k: Seq<char>,
    v: Seq<u8>,
    t: u64,
    now: u64,
    notify: bool,
    now2: u64,
    r: Option<u64>,
)
    requires
        spec_set_rel(s0, s1, k, v, Some(t), now, notify),
        !s1.shutdown,
        spec_purge_rel(s1, s2, now2, r),
    ensures
        now2 < spec_deadline(now, t) ==> (spec_lookup(s2.entries@, k) matches Some(e)
            && e.data@ == v),
        now2 >= spec_deadline(now, t) ==> spec_lookup(s2.entries@, k) is None,
{
}

/// Overwriting a key retires its old expiration record: after writing `k`
/// with a time-to-live and then overwriting it without one, no record for `k`
/// remains on file, and no purge — at the old expiration instant or any other
/// — evicts the key; the second value stays readable.
pub proof fn lemma_overwrite_retires_expiration(
    s0: State,
    s1: State,
    s2: State,
    s3: State,
    k: Seq<char>,
    v1: Seq<u8>,
    v2: Seq<u8>,
    ttl: u64,
    now1: u64,
    now2: u64,
    now3: u64,
    notify1: bool,
    notify2: bool,
    r: Option<u64>,
)
    requires
        spec_set_rel(s0, s1, k, v1, Some(ttl), now1, notify1),
        spec_set_rel(s1, s2, k, v2, None, now2, notify2),
        spec_purge_rel(s2, s3, now3, r),
    ensures
        forall|w: u64, i: u64| !exp_contains(s2.expirations@, w, i, k),
        spec_lookup(s3.entries@, k) matches Some(e) && e.data@ == v2 && e.expires_at is None,
{
    assert(spec_lookup(s2.entries@, k) matches Some(e) && e.data@ == v2 && e.expires_at
        is None);
    if s2.shutdown {
        assert(s3 == s2);
    }
}

} // verus!
