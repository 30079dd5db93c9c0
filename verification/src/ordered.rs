//! Maps keyed by integers: the order of their keys, lookups in them, and
//! what joining their values in ascending key order comes to.

use std::collections::BTreeMap;
use vstd::prelude::*;
use vstd::std_specs::btree::*;
use vstd::std_specs::iter::IteratorSpec;

verus! {

/// Whether maps keyed by `u8`, `u16` and `u32` follow the order of the
/// integers.
pub open spec fn integer_keys_ordered() -> bool {
    &&& vstd::laws_cmp::obeys_cmp::<u8>()
    &&& vstd::laws_cmp::obeys_cmp::<u16>()
    &&& vstd::laws_cmp::obeys_cmp::<u32>()
    &&& key_obeys_cmp_spec::<u8>()
    &&& key_obeys_cmp_spec::<u16>()
    &&& key_obeys_cmp_spec::<u32>()
}

/// Integer keys are ordered as integers.
pub proof fn lemma_integer_keys()
    ensures
        integer_keys_ordered(),
{
    broadcast use vstd::laws_cmp::group_laws_cmp;
    broadcast use group_btree_axioms;

}

/// The chunks of `chunks` with keys in `from..to`, joined in ascending order
/// of their keys.
pub open spec fn joined_ascending<T>(chunks: Map<int, Seq<T>>, from: int, to: int) -> Seq<T>
    decreases to - from,
{
    if from >= to {
        Seq::empty()
    } else if chunks.contains_key(to - 1) {
        joined_ascending(chunks, from, to - 1) + chunks[to - 1]
    } else {
        joined_ascending(chunks, from, to - 1)
    }
}

/// The chunks under `keys`, joined in the order of `keys`.
pub open spec fn joined_along<T>(chunks: Map<int, Seq<T>>, keys: Seq<int>) -> Seq<T>
    decreases keys.len(),
{
    if keys.len() == 0 {
        Seq::empty()
    } else {
        joined_along(chunks, keys.drop_last()) + chunks[keys.last()]
    }
}

/// Whatever stands in a join stands in one of the chunks that were joined.
pub proof fn lemma_joined_elements<T>(chunks: Map<int, Seq<T>>, from: int, to: int, j: int)
    requires
        0 <= j < joined_ascending(chunks, from, to).len(),
    ensures
        exists|k: int, i: int|
            from <= k < to && chunks.contains_key(k) && 0 <= i < chunks[k].len()
                && joined_ascending(chunks, from, to)[j] == #[trigger] chunks[k][i],
    decreases to - from,
{
    if from < to {
        let before = joined_ascending(chunks, from, to - 1);
        if chunks.contains_key(to - 1) && j >= before.len() {
            let i = j - before.len();
            assert(joined_ascending(chunks, from, to)[j] == chunks[to - 1][i]);
        } else {
            lemma_joined_elements(chunks, from, to - 1, j);
        }
    }
}

/// Joining along a strictly ascending list of all keys in `from..to` is
/// joining in ascending key order.
pub proof fn lemma_joined_along_ascending<T>(
    chunks: Map<int, Seq<T>>,
    keys: Seq<int>,
    from: int,
    to: int,
)
    requires
        forall|i: int, j: int| 0 <= i < j < keys.len() ==> keys[i] < keys[j],
        forall|i: int| 0 <= i < keys.len() ==> from <= #[trigger] keys[i] < to,
        forall|i: int| 0 <= i < keys.len() ==> chunks.contains_key(#[trigger] keys[i]),
        forall|k: int|
            from <= k < to && #[trigger] chunks.contains_key(k) ==> exists|i: int|
                0 <= i < keys.len() && keys[i] == k,
    ensures
        joined_along(chunks, keys) == joined_ascending(chunks, from, to),
    decreases to - from,
{
    if from >= to {
        if keys.len() > 0 {
            assert(from <= keys[0] < to);
        }
    } else if keys.len() > 0 && keys.last() == to - 1 {
        let rest = keys.drop_last();
        assert forall|k: int| from <= k < to - 1 && #[trigger] chunks.contains_key(k) implies exists|
            i: int,
        |
            0 <= i < rest.len() && rest[i] == k by {
            let i = choose|i: int| 0 <= i < keys.len() && keys[i] == k;
            assert(rest[i] == k);
        }
        lemma_joined_along_ascending(chunks, rest, from, to - 1);
    } else {
        if chunks.contains_key(to - 1) {
            let i = choose|i: int| 0 <= i < keys.len() && keys[i] == to - 1;
            assert(keys[i] <= keys[keys.len() - 1]);
        }
        assert forall|i: int| 0 <= i < keys.len() implies from <= #[trigger] keys[i] < to - 1 by {
            if i < keys.len() - 1 {
                assert(keys[i] < keys[keys.len() - 1]);
            }
        }
        lemma_joined_along_ascending(chunks, keys, from, to - 1);
    }
}

/// Whether `v` lists the entries of `m`: each once, in strictly ascending
/// order of the keys.
pub open spec fn lists_u8<V>(m: Map<u8, V>, v: Seq<(u8, &V)>) -> bool {
    &&& forall|i: int, j: int| 0 <= i < j < v.len() ==> v[i].0 < v[j].0
    &&& forall|i: int|
        0 <= i < v.len() ==> m.contains_key((#[trigger] v[i]).0) && m[v[i].0] == *v[i].1
    &&& forall|k: u8| #[trigger] m.contains_key(k) ==> exists|i: int| 0 <= i < v.len() && v[i].0 == k
}

/// What an iteration over a map yields: every entry once, in strictly
/// ascending order of the keys.
proof fn lemma_iteration_u8<V>(m: &BTreeMap<u8, V>, entries: Seq<(&u8, &V)>)
    requires
        entries == spec_btree_map_iter(m).remaining(),
        increasing_seq(entries.map_values(|kv: (&u8, &V)| *kv.0)),
    ensures
        forall|i: int, j: int| 0 <= i < j < entries.len() ==> *entries[i].0 < *entries[j].0,
        forall|i: int|
            0 <= i < entries.len() ==> m@.contains_key(*(#[trigger] entries[i]).0) && m@[*entries[i].0]
                == *entries[i].1,
        forall|k: u8| #[trigger]
            m@.contains_key(k) ==> exists|i: int| 0 <= i < entries.len() && *entries[i].0 == k,
{
    broadcast use vstd::laws_cmp::group_laws_cmp;
    broadcast use group_btree_axioms;

    let keys = entries.map_values(|kv: (&u8, &V)| *kv.0);
    axiom_increasing_seq_meaning(keys);
    assert forall|i: int, j: int| 0 <= i < j < entries.len() implies *entries[i].0
        < *entries[j].0 by {
        assert(keys[i] == *entries[i].0);
        assert(keys[j] == *entries[j].0);
        assert(vstd::std_specs::cmp::OrdSpec::cmp_spec(&keys[i], &keys[j])
            == core::cmp::Ordering::Less);
    }
    assert forall|k: u8| #[trigger] m@.contains_key(k) implies exists|i: int|
        0 <= i < entries.len() && *entries[i].0 == k by {
        assert(entries.contains((&k, &m@[k])));
    }
}

/// The entries of `m` in ascending order of their keys.
#[verifier::loop_isolation(false)]
pub fn entries_u8<'a, V>(m: &'a BTreeMap<u8, V>) -> (v: Vec<(u8, &'a V)>)
    ensures
        lists_u8(m@, v@),
{
    proof {
        lemma_integer_keys();
    }
    let mut v: Vec<(u8, &'a V)> = Vec::new();
    let iter = m.iter();
    let ghost entries = iter.remaining();
    proof {
        lemma_iteration_u8(m, entries);
    }
    for kv in it: iter
        invariant
            it.seq() == entries,
            v@.len() == it.index(),
            forall|i: int|
                0 <= i < v@.len() ==> (#[trigger] v@[i]).0 == *entries[i].0 && *v@[i].1
                    == *entries[i].1,
    {
        let (k, value) = kv;
        v.push((*k, value));
    }
    proof {
        assert forall|k: u8| #[trigger] m@.contains_key(k) implies exists|i: int|
            0 <= i < v@.len() && v@[i].0 == k by {
            let i = choose|i: int| 0 <= i < entries.len() && *entries[i].0 == k;
            assert(v@[i].0 == k);
        }
    }
    v
}

/// The value under `k`, if the map has one.
pub fn lookup_u8<'a, V>(m: &'a BTreeMap<u8, V>, k: u8) -> (r: Option<&'a V>)
    ensures
        r == if m@.contains_key(k) {
            Some(&m@[k])
        } else {
            None
        },
{
    proof {
        lemma_integer_keys();
    }
    m.get(&k)
}

/// Puts `v` under `k`.
pub fn put_u8<V>(m: &mut BTreeMap<u8, V>, k: u8, v: V)
    ensures
        final(m)@ == old(m)@.insert(k, v),
{
    proof {
        lemma_integer_keys();
    }
    m.insert(k, v);
}

/// Whether `v` lists the entries of `m`: each once, in strictly ascending
/// order of the keys.
pub open spec fn lists_u16<V>(m: Map<u16, V>, v: Seq<(u16, &V)>) -> bool {
    &&& forall|i: int, j: int| 0 <= i < j < v.len() ==> v[i].0 < v[j].0
    &&& forall|i: int|
        0 <= i < v.len() ==> m.contains_key((#[trigger] v[i]).0) && m[v[i].0] == *v[i].1
    &&& forall|k: u16| #[trigger] m.contains_key(k) ==> exists|i: int| 0 <= i < v.len() && v[i].0 == k
}

/// What an iteration over a map yields: every entry once, in strictly
/// ascending order of the keys.
proof fn lemma_iteration_u16<V>(m: &BTreeMap<u16, V>, entries: Seq<(&u16, &V)>)
    requires
        entries == spec_btree_map_iter(m).remaining(),
        increasing_seq(entries.map_values(|kv: (&u16, &V)| *kv.0)),
    ensures
        forall|i: int, j: int| 0 <= i < j < entries.len() ==> *entries[i].0 < *entries[j].0,
        forall|i: int|
            0 <= i < entries.len() ==> m@.contains_key(*(#[trigger] entries[i]).0) && m@[*entries[i].0]
                == *entries[i].1,
        forall|k: u16| #[trigger]
            m@.contains_key(k) ==> exists|i: int| 0 <= i < entries.len() && *entries[i].0 == k,
{
    broadcast use vstd::laws_cmp::group_laws_cmp;
    broadcast use group_btree_axioms;

    let keys = entries.map_values(|kv: (&u16, &V)| *kv.0);
    axiom_increasing_seq_meaning(keys);
    assert forall|i: int, j: int| 0 <= i < j < entries.len() implies *entries[i].0
        < *entries[j].0 by {
        assert(keys[i] == *entries[i].0);
        assert(keys[j] == *entries[j].0);
        assert(vstd::std_specs::cmp::OrdSpec::cmp_spec(&keys[i], &keys[j])
            == core::cmp::Ordering::Less);
    }
    assert forall|k: u16| #[trigger] m@.contains_key(k) implies exists|i: int|
        0 <= i < entries.len() && *entries[i].0 == k by {
        assert(entries.contains((&k, &m@[k])));
    }
}

/// The entries of `m` in ascending order of their keys.
#[verifier::loop_isolation(false)]
pub fn entries_u16<'a, V>(m: &'a BTreeMap<u16, V>) -> (v: Vec<(u16, &'a V)>)
    ensures
        lists_u16(m@, v@),
{
    proof {
        lemma_integer_keys();
    }
    let mut v: Vec<(u16, &'a V)> = Vec::new();
    let iter = m.iter();
    let ghost entries = iter.remaining();
    proof {
        lemma_iteration_u16(m, entries);
    }
    for kv in it: iter
        invariant
            it.seq() == entries,
            v@.len() == it.index(),
            forall|i: int|
                0 <= i < v@.len() ==> (#[trigger] v@[i]).0 == *entries[i].0 && *v@[i].1
                    == *entries[i].1,
    {
        let (k, value) = kv;
        v.push((*k, value));
    }
    proof {
        assert forall|k: u16| #[trigger] m@.contains_key(k) implies exists|i: int|
            0 <= i < v@.len() && v@[i].0 == k by {
            let i = choose|i: int| 0 <= i < entries.len() && *entries[i].0 == k;
            assert(v@[i].0 == k);
        }
    }
    v
}

/// Puts `v` under `k`.
pub fn put_u16<V>(m: &mut BTreeMap<u16, V>, k: u16, v: V)
    ensures
        final(m)@ == old(m)@.insert(k, v),
{
    proof {
        lemma_integer_keys();
    }
    m.insert(k, v);
}

/// Whether `v` lists the entries of `m`: each once, in strictly ascending
/// order of the keys.
pub open spec fn lists_u32<V>(m: Map<u32, V>, v: Seq<(u32, &V)>) -> bool {
    &&& forall|i: int, j: int| 0 <= i < j < v.len() ==> v[i].0 < v[j].0
    &&& forall|i: int|
        0 <= i < v.len() ==> m.contains_key((#[trigger] v[i]).0) && m[v[i].0] == *v[i].1
    &&& forall|k: u32| #[trigger] m.contains_key(k) ==> exists|i: int| 0 <= i < v.len() && v[i].0 == k
}

/// What an iteration over a map yields: every entry once, in strictly
/// ascending order of the keys.
proof fn lemma_iteration_u32<V>(m: &BTreeMap<u32, V>, entries: Seq<(&u32, &V)>)
    requires
        entries == spec_btree_map_iter(m).remaining(),
        increasing_seq(entries.map_values(|kv: (&u32, &V)| *kv.0)),
    ensures
        forall|i: int, j: int| 0 <= i < j < entries.len() ==> *entries[i].0 < *entries[j].0,
        forall|i: int|
            0 <= i < entries.len() ==> m@.contains_key(*(#[trigger] entries[i]).0) && m@[*entries[i].0]
                == *entries[i].1,
        forall|k: u32| #[trigger]
            m@.contains_key(k) ==> exists|i: int| 0 <= i < entries.len() && *entries[i].0 == k,
{
    broadcast use vstd::laws_cmp::group_laws_cmp;
    broadcast use group_btree_axioms;

    let keys = entries.map_values(|kv: (&u32, &V)| *kv.0);
    axiom_increasing_seq_meaning(keys);
    assert forall|i: int, j: int| 0 <= i < j < entries.len() implies *entries[i].0
        < *entries[j].0 by {
        assert(keys[i] == *entries[i].0);
        assert(keys[j] == *entries[j].0);
        assert(vstd::std_specs::cmp::OrdSpec::cmp_spec(&keys[i], &keys[j])
            == core::cmp::Ordering::Less);
    }
    assert forall|k: u32| #[trigger] m@.contains_key(k) implies exists|i: int|
        0 <= i < entries.len() && *entries[i].0 == k by {
        assert(entries.contains((&k, &m@[k])));
    }
}

/// The entries of `m` in ascending order of their keys.
#[verifier::loop_isolation(false)]
pub fn entries_u32<'a, V>(m: &'a BTreeMap<u32, V>) -> (v: Vec<(u32, &'a V)>)
    ensures
        lists_u32(m@, v@),
{
    proof {
        lemma_integer_keys();
    }
    let mut v: Vec<(u32, &'a V)> = Vec::new();
    let iter = m.iter();
    let ghost entries = iter.remaining();
    proof {
        lemma_iteration_u32(m, entries);
    }
    for kv in it: iter
        invariant
            it.seq() == entries,
            v@.len() == it.index(),
            forall|i: int|
                0 <= i < v@.len() ==> (#[trigger] v@[i]).0 == *entries[i].0 && *v@[i].1
                    == *entries[i].1,
    {
        let (k, value) = kv;
        v.push((*k, value));
    }
    proof {
        assert forall|k: u32| #[trigger] m@.contains_key(k) implies exists|i: int|
            0 <= i < v@.len() && v@[i].0 == k by {
            let i = choose|i: int| 0 <= i < entries.len() && *entries[i].0 == k;
            assert(v@[i].0 == k);
        }
    }
    v
}

/// The value under `k`, if the map has one.
pub fn lookup_u32<'a, V>(m: &'a BTreeMap<u32, V>, k: u32) -> (r: Option<&'a V>)
    ensures
        r == if m@.contains_key(k) {
            Some(&m@[k])
        } else {
            None
        },
{
    proof {
        lemma_integer_keys();
    }
    m.get(&k)
}

/// Puts `v` under `k`.
pub fn put_u32<V>(m: &mut BTreeMap<u32, V>, k: u32, v: V)
    ensures
        final(m)@ == old(m)@.insert(k, v),
{
    proof {
        lemma_integer_keys();
    }
    m.insert(k, v);
}

} // verus!
