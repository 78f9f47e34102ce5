//! Association sequences: the mathematical model shared by the crate's
//! address-keyed collections (the memory-consistency log, the public-input
//! map, and the byte memory). A collection is a sequence of `(address, value)`
//! pairs with pairwise-distinct addresses; its meaning is the finite map the
//! pairs denote.

use vstd::prelude::*;

verus! {

/// No two pairs carry the same address.
pub open spec fn unique_keys<V>(s: Seq<(u32, V)>) -> bool {
    forall|i: int, j: int| 0 <= i < j < s.len() ==> s[i].0 != s[j].0
}

/// The finite map a sequence of pairs denotes; later pairs win.
pub open spec fn map_of<V>(s: Seq<(u32, V)>) -> Map<u32, V>
    decreases s.len(),
{
    if s.len() == 0 {
        Map::empty()
    } else {
        map_of(s.drop_last()).insert(s.last().0, s.last().1)
    }
}

/// An address is in the map exactly when some pair carries it.
pub proof fn lemma_map_of_contains<V>(s: Seq<(u32, V)>, a: u32)
    ensures
        map_of(s).contains_key(a) <==> exists|i: int| 0 <= i < s.len() && s[i].0 == a,
    decreases s.len(),
{
    if s.len() > 0 {
        lemma_map_of_contains(s.drop_last(), a);
        if map_of(s).contains_key(a) {
            if s.last().0 != a {
                let i = choose|i: int| 0 <= i < s.drop_last().len() && s.drop_last()[i].0 == a;
                assert(s[i].0 == a);
            }
        } else {
            assert(forall|i: int|
                0 <= i < s.len() - 1 ==> s[i] == s.drop_last()[i]);
        }
    }
}

/// With distinct addresses, the map sends each pair's address to its value.
pub proof fn lemma_map_of_index<V>(s: Seq<(u32, V)>, i: int)
    requires
        unique_keys(s),
        0 <= i < s.len(),
    ensures
        map_of(s).contains_key(s[i].0),
        map_of(s)[s[i].0] == s[i].1,
    decreases s.len(),
{
    if i < s.len() - 1 {
        assert(unique_keys(s.drop_last()));
        assert(s.drop_last()[i] == s[i]);
        lemma_map_of_index(s.drop_last(), i);
        assert(s.last().0 != s[i].0);
    }
}

/// Replacing the value at one index updates the map at that pair's address.
pub proof fn lemma_map_of_update<V>(s: Seq<(u32, V)>, i: int, v: V)
    requires
        unique_keys(s),
        0 <= i < s.len(),
    ensures
        map_of(s.update(i, (s[i].0, v))) =~= map_of(s).insert(s[i].0, v),
        unique_keys(s.update(i, (s[i].0, v))),
    decreases s.len(),
{
    let t = s.update(i, (s[i].0, v));
    assert(forall|j: int| 0 <= j < s.len() && j != i ==> t[j] == s[j]);
    if i == s.len() - 1 {
        assert(t.drop_last() =~= s.drop_last());
    } else {
        assert(unique_keys(s.drop_last()));
        assert(t.drop_last() =~= s.drop_last().update(i, (s[i].0, v)));
        assert(s.drop_last()[i] == s[i]);
        lemma_map_of_update(s.drop_last(), i, v);
        assert(s.last().0 != s[i].0);
        assert(map_of(t) =~= map_of(s).insert(s[i].0, v));
    }
}

/// Removing one index removes that pair's address from the map.
pub proof fn lemma_map_of_remove<V>(s: Seq<(u32, V)>, i: int)
    requires
        unique_keys(s),
        0 <= i < s.len(),
    ensures
        map_of(s.remove(i)) =~= map_of(s).remove(s[i].0),
        unique_keys(s.remove(i)),
    decreases s.len(),
{
    let t = s.remove(i);
    assert(forall|j: int| 0 <= j < i ==> t[j] == s[j]);
    assert(forall|j: int| i <= j < t.len() ==> t[j] == s[j + 1]);
    if i == s.len() - 1 {
        assert(t =~= s.drop_last());
        lemma_map_of_contains(t, s[i].0);
        assert(map_of(t) =~= map_of(s).remove(s[i].0));
    } else {
        assert(unique_keys(s.drop_last()));
        assert(t.drop_last() =~= s.drop_last().remove(i));
        lemma_map_of_remove(s.drop_last(), i);
        assert(s.drop_last()[i] == s[i]);
        assert(s.last().0 != s[i].0);
        assert(map_of(t) =~= map_of(s).remove(s[i].0));
    }
}

/// Appending a pair with a fresh address keeps addresses distinct.
pub proof fn lemma_unique_push<V>(s: Seq<(u32, V)>, p: (u32, V))
    requires
        unique_keys(s),
        forall|i: int| 0 <= i < s.len() ==> s[i].0 != p.0,
    ensures
        unique_keys(s.push(p)),
{
    let t = s.push(p);
    assert(forall|i: int| 0 <= i < s.len() ==> t[i] == s[i]);
}

/// With distinct addresses, the map has exactly one key per pair.
pub proof fn lemma_map_of_dom_len<V>(s: Seq<(u32, V)>)
    requires
        unique_keys(s),
    ensures
        map_of(s).dom().finite(),
        map_of(s).dom().len() == s.len(),
    decreases s.len(),
{
    if s.len() > 0 {
        assert(unique_keys(s.drop_last()));
        lemma_map_of_dom_len(s.drop_last());
        lemma_map_of_contains(s.drop_last(), s.last().0);
        assert(forall|i: int| 0 <= i < s.len() - 1 ==> s[i] == s.drop_last()[i]);
        assert(!map_of(s.drop_last()).contains_key(s.last().0));
        assert(map_of(s).dom() =~= map_of(s.drop_last()).dom().insert(s.last().0));
    }
}

/// Index of the pair carrying `a`, if any.
pub fn find_key<V: Copy>(entries: &Vec<(u32, V)>, a: u32) -> (r: Option<usize>)
    ensures
        match r {
            Some(i) => i < entries@.len() && entries@[i as int].0 == a,
            None => forall|i: int| 0 <= i < entries@.len() ==> entries@[i].0 != a,
        },
{
    let n = entries.len();
    let mut i: usize = 0;
    while i < n
        invariant
            n == entries@.len(),
            i <= n,
            forall|j: int| 0 <= j < i ==> entries@[j].0 != a,
        decreases n - i,
    {
        if entries[i].0 == a {
            return Some(i);
        }
        i += 1;
    }
    None
}

} // verus!
