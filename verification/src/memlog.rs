//! Memory-consistency log: for every byte address ever touched, the timestamp
//! and value of the last access, kept in insertion order. A ghost history of
//! all accesses shows that each access's previous-timestamp/previous-value
//! pair chains to the access just before it at the same address.

use vstd::prelude::*;

use crate::kv::{find_key, lemma_map_of_index, lemma_map_of_update, lemma_map_of_contains,
    lemma_unique_push, map_of, unique_keys};

verus! {

/// One byte access, as the log saw it.
pub struct MemAccess {
    pub addr: u32,
    pub ts: u32,
    pub val: u8,
    pub prev_ts: u32,
    pub prev_val: u8,
}

/// The `(timestamp, value)` pair of the access to `a` nearest before index
/// `i` in the history, if any.
pub open spec fn last_access_before(h: Seq<MemAccess>, a: u32, i: int) -> Option<(u32, u8)>
    decreases i,
{
    if i <= 0 || i > h.len() {
        None
    } else if h[i - 1].addr == a {
        Some((h[i - 1].ts, h[i - 1].val))
    } else {
        last_access_before(h, a, i - 1)
    }
}

/// Each access records as its previous pair exactly the last access to the
/// same address, or zeroes when the address was never touched before.
pub open spec fn history_chained(h: Seq<MemAccess>) -> bool {
    forall|i: int| 0 <= i < h.len() ==> match #[trigger] last_access_before(h, h[i].addr, i) {
        Some(p) => h[i].prev_ts == p.0 && h[i].prev_val == p.1,
        None => h[i].prev_ts == 0 && h[i].prev_val == 0,
    }
}

/// Running map `address -> (timestamp, value)` of the last access to each
/// byte address, with its ghost history of all accesses.
pub struct AccessLog {
    entries: Vec<(u32, (u32, u8))>,
    history: Ghost<Seq<MemAccess>>,
}

impl AccessLog {
    /// Entries in insertion order: oldest first.
    pub closed spec fn entries_seq(self) -> Seq<(u32, (u32, u8))> {
        self.entries@
    }

    /// The map the log denotes.
    pub open spec fn log_map(self) -> Map<u32, (u32, u8)> {
        map_of(self.entries_seq())
    }

    /// All accesses ever recorded, in order.
    pub closed spec fn history(self) -> Seq<MemAccess> {
        self.history@
    }

    /// The log's addresses are pairwise distinct, its history chains, and its
    /// map holds the last access to each address in the history.
    pub closed spec fn wf(self) -> bool {
        &&& unique_keys(self.entries@)
        &&& history_chained(self.history@)
        &&& forall|a: u32| #[trigger] self.log_map().contains_key(a)
            <==> last_access_before(self.history@, a, self.history@.len() as int).is_some()
        &&& forall|a: u32| #[trigger] self.log_map().contains_key(a)
            ==> Some(self.log_map()[a])
                == last_access_before(self.history@, a, self.history@.len() as int)
    }

    /// An empty log.
    pub fn new() -> (log: AccessLog)
        ensures
            log.wf(),
            log.entries_seq() == Seq::<(u32, (u32, u8))>::empty(),
            log.history() == Seq::<MemAccess>::empty(),
            log.log_map() == Map::<u32, (u32, u8)>::empty(),
    {
        let log = AccessLog { entries: Vec::new(), history: Ghost(Seq::empty()) };
        proof {
            assert(log.log_map() =~= Map::<u32, (u32, u8)>::empty());
        }
        log
    }

    /// Number of distinct byte addresses ever touched.
    pub fn len(&self) -> (n: usize)
        ensures
            n == self.entries_seq().len(),
    {
        self.entries.len()
    }

    /// The `i`-th entry in insertion order: `(address, timestamp, value)`.
    pub fn entry_at(&self, i: usize) -> (e: (u32, (u32, u8)))
        requires
            i < self.entries_seq().len(),
        ensures
            e == self.entries_seq()[i as int],
    {
        self.entries[i]
    }

    /// Replace the entry for `addr` with `(ts, val)` and hand back the prior
    /// entry, if any.
    pub fn record_access(&mut self, addr: u32, ts: u32, val: u8) -> (prev: Option<(u32, u8)>)
        requires
            old(self).wf(),
        ensures
            final(self).wf(),
            prev == if old(self).log_map().contains_key(addr) {
                Some(old(self).log_map()[addr])
            } else {
                None::<(u32, u8)>
            },
            final(self).log_map() == old(self).log_map().insert(addr, (ts, val)),
            final(self).history() == old(self).history().push(MemAccess {
                addr,
                ts,
                val,
                prev_ts: if old(self).log_map().contains_key(addr) {
                    old(self).log_map()[addr].0
                } else {
                    0
                },
                prev_val: if old(self).log_map().contains_key(addr) {
                    old(self).log_map()[addr].1
                } else {
                    0
                },
            }),
            prev.is_none() ==> final(self).entries_seq()
                == old(self).entries_seq().push((addr, (ts, val))),
            prev.is_some() ==> final(self).entries_seq().len() == old(self).entries_seq().len(),
    {
        let ghost s0 = self.entries@;
        let ghost h0 = self.history@;
        let found = find_key(&self.entries, addr);
        let prev: Option<(u32, u8)> = match found {
            Some(i) => {
                let e = self.entries[i];
                self.entries[i] = (addr, (ts, val));
                proof {
                    lemma_map_of_index(s0, i as int);
                    lemma_map_of_update(s0, i as int, (ts, val));
                    assert(s0[i as int].0 == addr);
                    assert(self.entries@ == s0.update(i as int, (addr, (ts, val))));
                }
                Some(e.1)
            }
            None => {
                self.entries.push((addr, (ts, val)));
                proof {
                    lemma_map_of_contains(s0, addr);
                    lemma_unique_push(s0, (addr, (ts, val)));
                    assert(self.entries@ == s0.push((addr, (ts, val))));
                    assert(self.entries@.drop_last() =~= s0);
                    assert(map_of(self.entries@)
                        == map_of(self.entries@.drop_last()).insert(addr, (ts, val)));
                }
                None
            }
        };
        let ghost pts: u32 = if prev.is_some() { prev->Some_0.0 } else { 0 };
        let ghost pval: u8 = if prev.is_some() { prev->Some_0.1 } else { 0 };
        let ghost acc = MemAccess { addr, ts, val, prev_ts: pts, prev_val: pval };
        proof {
            self.history@ = h0.push(acc);
            let h1 = h0.push(acc);
            let n = h0.len() as int;
            let m0 = map_of(s0);
            let m1 = self.log_map();
            assert(m1 =~= m0.insert(addr, (ts, val)));
            assert(last_access_before(h1, addr, n + 1) == Some((ts, val)));
            assert(history_chained(h1)) by {
                assert(forall|i: int| 0 <= i < n ==> h1[i] == h0[i]);
                assert forall|i: int| 0 <= i < h1.len() implies
                    match #[trigger] last_access_before(h1, h1[i].addr, i) {
                        Some(p) => h1[i].prev_ts == p.0 && h1[i].prev_val == p.1,
                        None => h1[i].prev_ts == 0 && h1[i].prev_val == 0,
                    } by {
                    if i < n {
                        lemma_last_access_prefix(h0, acc, h0[i].addr, i);
                        assert(last_access_before(h0, h0[i].addr, i)
                            == last_access_before(h1, h1[i].addr, i));
                    } else {
                        assert(last_access_before(h1, acc.addr, n)
                            == last_access_before(h0, acc.addr, n)) by {
                            lemma_last_access_prefix(h0, acc, acc.addr, n);
                        }
                        assert(m0.contains_key(addr)
                            <==> last_access_before(h0, addr, n).is_some());
                    }
                }
            }
            assert forall|a: u32| #[trigger] m1.contains_key(a) implies
                Some(m1[a]) == last_access_before(h1, a, n + 1) by {
                if a == addr {
                    assert(m1[a] == (ts, val));
                } else {
                    assert(m0.contains_key(a));
                    lemma_last_access_prefix(h0, acc, a, n);
                    assert(last_access_before(h1, a, n + 1) == last_access_before(h1, a, n));
                }
            }
            assert forall|a: u32| last_access_before(h1, a, n + 1).is_some() implies
                #[trigger] m1.contains_key(a) by {
                if a != addr {
                    lemma_last_access_prefix(h0, acc, a, n);
                    assert(last_access_before(h1, a, n + 1) == last_access_before(h1, a, n));
                    assert(m0.contains_key(a)
                        <==> last_access_before(h0, a, n).is_some());
                }
            }
        }
        prev
    }
}

/// A well-formed log's entries carry pairwise-distinct addresses.
pub proof fn lemma_entries_unique(log: AccessLog)
    requires
        log.wf(),
    ensures
        unique_keys(log.entries_seq()),
{
}

/// Appending an access does not change what came before it.
pub proof fn lemma_last_access_prefix(h: Seq<MemAccess>, x: MemAccess, a: u32, i: int)
    requires
        0 <= i <= h.len(),
    ensures
        last_access_before(h.push(x), a, i) == last_access_before(h, a, i),
    decreases i,
{
    if i > 0 {
        assert(h.push(x)[i - 1] == h[i - 1]);
        lemma_last_access_prefix(h, x, a, i - 1);
    }
}

/// Law: the accesses to any one address chain. When access `j` is the first
/// access to its address after access `i`, its previous pair is exactly the
/// timestamp and value access `i` wrote.
pub proof fn lemma_access_chain(log: AccessLog, i: int, j: int)
    requires
        log.wf(),
        0 <= i < j < log.history().len(),
        log.history()[j].addr == log.history()[i].addr,
        forall|k: int| i < k < j ==> log.history()[k].addr != log.history()[i].addr,
    ensures
        log.history()[j].prev_ts == log.history()[i].ts,
        log.history()[j].prev_val == log.history()[i].val,
{
    let h = log.history();
    let a = log.history()[i].addr;
    lemma_last_access_between(h, a, i, j);
    assert(last_access_before(h, h[j].addr, j) == Some((h[i].ts, h[i].val)));
}

/// Law: an access to a never-before-touched address records zeroes as its
/// previous timestamp and value.
pub proof fn lemma_first_access(log: AccessLog, j: int)
    requires
        log.wf(),
        0 <= j < log.history().len(),
        forall|k: int| 0 <= k < j ==> log.history()[k].addr != log.history()[j].addr,
    ensures
        log.history()[j].prev_ts == 0,
        log.history()[j].prev_val == 0,
{
    let h = log.history();
    let a = h[j].addr;
    lemma_no_access_before(h, a, j);
    assert(last_access_before(h, h[j].addr, j).is_none());
}

/// Law: the log's entry for an address is the timestamp and value of the very
/// last access to it in the history, and an address is in the log exactly
/// when some access touched it.
pub proof fn lemma_final_entry(log: AccessLog, j: int)
    requires
        log.wf(),
        0 <= j < log.history().len(),
        forall|k: int| j < k < log.history().len()
            ==> log.history()[k].addr != log.history()[j].addr,
    ensures
        log.log_map().contains_key(log.history()[j].addr),
        log.log_map()[log.history()[j].addr] == (log.history()[j].ts, log.history()[j].val),
{
    let h = log.history();
    let a = h[j].addr;
    lemma_last_access_between(h, a, j, h.len() as int);
    assert(last_access_before(h, a, h.len() as int) == Some((h[j].ts, h[j].val)));
    assert(log.log_map().contains_key(a));
}

proof fn lemma_last_access_between(h: Seq<MemAccess>, a: u32, i: int, k: int)
    requires
        0 <= i < k <= h.len(),
        h[i].addr == a,
        forall|m: int| i < m < k ==> h[m].addr != a,
    ensures
        last_access_before(h, a, k) == Some((h[i].ts, h[i].val)),
    decreases k,
{
    if k - 1 > i {
        lemma_last_access_between(h, a, i, k - 1);
    }
}

proof fn lemma_no_access_before(h: Seq<MemAccess>, a: u32, k: int)
    requires
        0 <= k <= h.len(),
        forall|m: int| 0 <= m < k ==> h[m].addr != a,
    ensures
        last_access_before(h, a, k).is_none(),
    decreases k,
{
    if k > 0 {
        lemma_no_access_before(h, a, k - 1);
    }
}

} // verus!
