//! Public-input and public-output collections. Both are populated from the
//! program's memory layout before execution and drained destructively while
//! the terminal trace rows are written: every entry must be matched by a
//! touched byte address exactly once.

use vstd::prelude::*;

use crate::kv::{find_key, lemma_map_of_contains, lemma_map_of_index, lemma_map_of_remove,
    lemma_map_of_update, lemma_unique_push, map_of, unique_keys};

verus! {

/// `address -> byte` map of the program's public input bytes.
pub struct PublicInputMap {
    entries: Vec<(u32, u8)>,
}

impl PublicInputMap {
    /// The map the collection denotes.
    pub closed spec fn view_map(self) -> Map<u32, u8> {
        map_of(self.entries@)
    }

    /// Addresses are pairwise distinct.
    pub closed spec fn wf(self) -> bool {
        unique_keys(self.entries@)
    }

    /// An empty map.
    pub fn new() -> (m: PublicInputMap)
        ensures
            m.wf(),
            m.view_map() == Map::<u32, u8>::empty(),
    {
        let m = PublicInputMap { entries: Vec::new() };
        proof {
            assert(m.view_map() =~= Map::<u32, u8>::empty());
        }
        m
    }

    /// Bind `addr` to `val`, replacing any earlier binding.
    pub fn insert(&mut self, addr: u32, val: u8)
        requires
            old(self).wf(),
        ensures
            final(self).wf(),
            final(self).view_map() == old(self).view_map().insert(addr, val),
    {
        let ghost s0 = self.entries@;
        match find_key(&self.entries, addr) {
            Some(i) => {
                self.entries[i] = (addr, val);
                proof {
                    lemma_map_of_update(s0, i as int, val);
                    assert(s0[i as int].0 == addr);
                    assert(self.entries@ == s0.update(i as int, (addr, val)));
                    assert(self.view_map() =~= old(self).view_map().insert(addr, val));
                }
            }
            None => {
                self.entries.push((addr, val));
                proof {
                    lemma_unique_push(s0, (addr, val));
                    assert(self.entries@.drop_last() =~= s0);
                    assert(self.view_map()
                        == map_of(self.entries@.drop_last()).insert(addr, val));
                    assert(self.view_map() =~= old(self).view_map().insert(addr, val));
                }
            }
        }
    }

    /// Take the binding for `addr` out of the map, if there is one.
    pub fn remove(&mut self, addr: u32) -> (r: Option<u8>)
        requires
            old(self).wf(),
        ensures
            final(self).wf(),
            r == if old(self).view_map().contains_key(addr) {
                Some(old(self).view_map()[addr])
            } else {
                None::<u8>
            },
            final(self).view_map() == old(self).view_map().remove(addr),
    {
        let ghost s0 = self.entries@;
        match find_key(&self.entries, addr) {
            Some(i) => {
                let e = self.entries.remove(i);
                proof {
                    lemma_map_of_index(s0, i as int);
                    lemma_map_of_remove(s0, i as int);
                    assert(self.entries@ == s0.remove(i as int));
                    assert(self.view_map() =~= old(self).view_map().remove(addr));
                }
                Some(e.1)
            }
            None => {
                proof {
                    lemma_map_of_contains(s0, addr);
                    assert(self.view_map() =~= old(self).view_map().remove(addr));
                }
                None
            }
        }
    }

    /// True when no binding is left.
    pub fn is_empty(&self) -> (r: bool)
        ensures
            r <==> self.view_map() =~= Map::<u32, u8>::empty(),
    {
        let r = self.entries.len() == 0;
        proof {
            if self.entries@.len() == 0 {
                assert(self.view_map() =~= Map::<u32, u8>::empty());
            } else {
                lemma_map_of_contains(self.entries@, self.entries@[0].0);
            }
        }
        r
    }
}

/// Set of byte addresses whose final memory value is a public output.
pub struct PublicOutputSet {
    entries: Vec<(u32, ())>,
}

impl PublicOutputSet {
    /// The set the collection denotes.
    pub closed spec fn view_set(self) -> Set<u32> {
        map_of(self.entries@).dom()
    }

    /// Addresses are pairwise distinct.
    pub closed spec fn wf(self) -> bool {
        unique_keys(self.entries@)
    }

    /// An empty set.
    pub fn new() -> (s: PublicOutputSet)
        ensures
            s.wf(),
            s.view_set() == Set::<u32>::empty(),
    {
        let s = PublicOutputSet { entries: Vec::new() };
        proof {
            assert(s.view_set() =~= Set::<u32>::empty());
        }
        s
    }

    /// Add `addr` to the set.
    pub fn insert(&mut self, addr: u32)
        requires
            old(self).wf(),
        ensures
            final(self).wf(),
            final(self).view_set() == old(self).view_set().insert(addr),
    {
        let ghost s0 = self.entries@;
        match find_key(&self.entries, addr) {
            Some(i) => {
                proof {
                    lemma_map_of_index(s0, i as int);
                    assert(self.view_set() =~= old(self).view_set().insert(addr));
                }
            }
            None => {
                self.entries.push((addr, ()));
                proof {
                    lemma_unique_push(s0, (addr, ()));
                    assert(self.entries@.drop_last() =~= s0);
                    assert(map_of(self.entries@)
                        == map_of(self.entries@.drop_last()).insert(addr, ()));
                    assert(self.view_set() =~= old(self).view_set().insert(addr));
                }
            }
        }
    }

    /// Take `addr` out of the set; true when it was present.
    pub fn remove(&mut self, addr: u32) -> (r: bool)
        requires
            old(self).wf(),
        ensures
            final(self).wf(),
            r <==> old(self).view_set().contains(addr),
            final(self).view_set() == old(self).view_set().remove(addr),
    {
        let ghost s0 = self.entries@;
        match find_key(&self.entries, addr) {
            Some(i) => {
                self.entries.remove(i);
                proof {
                    lemma_map_of_index(s0, i as int);
                    lemma_map_of_remove(s0, i as int);
                    assert(self.entries@ == s0.remove(i as int));
                    assert(self.view_set() =~= old(self).view_set().remove(addr));
                }
                true
            }
            None => {
                proof {
                    lemma_map_of_contains(s0, addr);
                    assert(self.view_set() =~= old(self).view_set().remove(addr));
                }
                false
            }
        }
    }

    /// True when no address is left.
    pub fn is_empty(&self) -> (r: bool)
        ensures
            r <==> self.view_set() =~= Set::<u32>::empty(),
    {
        let r = self.entries.len() == 0;
        proof {
            if self.entries@.len() == 0 {
                assert(self.view_set() =~= Set::<u32>::empty());
            } else {
                lemma_map_of_contains(self.entries@, self.entries@[0].0);
            }
        }
        r
    }
}

} // verus!
