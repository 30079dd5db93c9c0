//! Sets of object ids, kept in ascending order.

use vstd::prelude::*;

verus! {

/// Whether every element of `s` is smaller than the next.
pub open spec fn strictly_ascending(s: Seq<u32>) -> bool {
    forall|i: int, j: int| 0 <= i < j < s.len() ==> s[i] < s[j]
}

/// Whether `x` is among the first `n` elements of `s`.
pub open spec fn in_prefix(s: Seq<u32>, n: int, x: u32) -> bool {
    exists|k: int| 0 <= k < n && k < s.len() && s[k] == x
}

/// Which elements a merge keeps: those of the first set alone, those of
/// both, those of the second alone.
pub open spec fn kept(in_a: bool, in_b: bool, only_a: bool, both: bool, only_b: bool) -> bool {
    (in_a && !in_b && only_a) || (in_a && in_b && both) || (!in_a && in_b && only_b)
}

/// A set of object ids. Iteration is in ascending order.
#[derive(Debug)]
pub struct IdSet {
    elems: Vec<u32>,
}

impl View for IdSet {
    type V = Set<u32>;

    closed spec fn view(&self) -> Set<u32> {
        Set::new(|x: u32| in_prefix(self.elems@, self.elems@.len() as int, x))
    }
}

impl Clone for IdSet {
    fn clone(&self) -> (r: IdSet)
        ensures
            r.wf(),
            r@ == self@,
            r.elements() == self.elements(),
    {
        proof {
            use_type_invariant(self);
        }
        IdSet { elems: self.elems.clone() }
    }
}

impl PartialEq for IdSet {
    fn eq(&self, other: &IdSet) -> (r: bool) {
        self.same(other)
    }
}

impl vstd::std_specs::cmp::PartialEqSpecImpl for IdSet {
    open spec fn obeys_eq_spec() -> bool {
        true
    }

    open spec fn eq_spec(&self, other: &IdSet) -> bool {
        self@ == other@
    }
}

/// Two ascending sequences with the same elements are the same sequence.
pub proof fn lemma_ascending_unique(a: Seq<u32>, b: Seq<u32>)
    requires
        strictly_ascending(a),
        strictly_ascending(b),
        forall|x: u32| in_prefix(a, a.len() as int, x) <==> in_prefix(b, b.len() as int, x),
    ensures
        a == b,
    decreases a.len(),
{
    if a.len() == 0 {
        if b.len() > 0 {
            assert(in_prefix(b, b.len() as int, b[0]));
        }
        assert(a =~= b);
    } else {
        let top = a.last();
        assert(in_prefix(a, a.len() as int, top));
        assert(in_prefix(b, b.len() as int, top));
        let k = choose|k: int| 0 <= k < b.len() && b[k] == top;
        assert(in_prefix(b, b.len() as int, b.last()));
        let m = choose|m: int| 0 <= m < a.len() && a[m] == b.last();
        assert(b.last() == top);
        let ra = a.drop_last();
        let rb = b.drop_last();
        assert forall|x: u32| in_prefix(ra, ra.len() as int, x) <==> in_prefix(
            rb,
            rb.len() as int,
            x,
        ) by {
            if in_prefix(ra, ra.len() as int, x) {
                let i = choose|i: int| 0 <= i < ra.len() && ra[i] == x;
                assert(a[i] == x);
                assert(in_prefix(a, a.len() as int, x));
                let j = choose|j: int| 0 <= j < b.len() && b[j] == x;
                assert(j < b.len() - 1);
                assert(rb[j] == x);
            }
            if in_prefix(rb, rb.len() as int, x) {
                let j = choose|j: int| 0 <= j < rb.len() && rb[j] == x;
                assert(b[j] == x);
                assert(in_prefix(b, b.len() as int, x));
                let i = choose|i: int| 0 <= i < a.len() && a[i] == x;
                assert(i < a.len() - 1);
                assert(ra[i] == x);
            }
        }
        lemma_ascending_unique(ra, rb);
        assert(a =~= ra.push(top));
        assert(b =~= rb.push(top));
    }
}

/// Merges two ascending sequences, keeping what `kept` says.
fn merge(a: &Vec<u32>, b: &Vec<u32>, only_a: bool, both: bool, only_b: bool) -> (out: Vec<u32>)
    requires
        strictly_ascending(a@),
        strictly_ascending(b@),
    ensures
        strictly_ascending(out@),
        forall|x: u32|
            in_prefix(out@, out@.len() as int, x) <==> kept(
                in_prefix(a@, a@.len() as int, x),
                in_prefix(b@, b@.len() as int, x),
                only_a,
                both,
                only_b,
            ),
{
    let mut out: Vec<u32> = Vec::new();
    let mut i: usize = 0;
    let mut j: usize = 0;
    while i < a.len() || j < b.len()
        invariant
            i <= a.len(),
            j <= b.len(),
            strictly_ascending(a@),
            strictly_ascending(b@),
            strictly_ascending(out@),
            forall|k: int| 0 <= k < out@.len() && i < a.len() ==> out@[k] < a@[i as int],
            forall|k: int| 0 <= k < out@.len() && j < b.len() ==> out@[k] < b@[j as int],
            forall|k: int| 0 <= k < j && i < a.len() ==> b@[k] < a@[i as int],
            forall|k: int| 0 <= k < i && j < b.len() ==> a@[k] < b@[j as int],
            forall|x: u32|
                in_prefix(out@, out@.len() as int, x) <==> kept(
                    in_prefix(a@, i as int, x),
                    in_prefix(b@, j as int, x),
                    only_a,
                    both,
                    only_b,
                ),
        decreases (a.len() - i) + (b.len() - j),
    {
        let ghost old_out = out@;
        let ghost old_i = i as int;
        let ghost old_j = j as int;
        let take_a = i < a.len() && (j >= b.len() || a[i] <= b[j]);
        let take_b = j < b.len() && (i >= a.len() || b[j] <= a[i]);
        let e: u32 = if take_a {
            a[i]
        } else {
            b[j]
        };
        let keep = (take_a && !take_b && only_a) || (take_a && take_b && both) || (!take_a
            && take_b && only_b);
        if keep {
            out.push(e);
        }
        if take_a {
            i += 1;
        }
        if take_b {
            j += 1;
        }
        proof {
            assert(take_a || take_b);
            assert forall|x: u32|
                in_prefix(out@, out@.len() as int, x) <==> kept(
                    in_prefix(a@, i as int, x),
                    in_prefix(b@, j as int, x),
                    only_a,
                    both,
                    only_b,
                ) by {
                let was_a = in_prefix(a@, old_i, x);
                let was_b = in_prefix(b@, old_j, x);
                let now_a = in_prefix(a@, i as int, x);
                let now_b = in_prefix(b@, j as int, x);
                assert(in_prefix(old_out, old_out.len() as int, x) <==> kept(
                    was_a,
                    was_b,
                    only_a,
                    both,
                    only_b,
                ));
                // the prefixes grow by `e` at most
                if take_a {
                    assert(a@[old_i] == e);
                    assert(now_a <==> was_a || x == e) by {
                        if now_a {
                            let k = choose|k: int| 0 <= k < i && k < a@.len() && a@[k] == x;
                            if k < old_i {
                                assert(was_a);
                            }
                        }
                        if was_a {
                            let k = choose|k: int| 0 <= k < old_i && k < a@.len() && a@[k] == x;
                            assert(0 <= k < i && a@[k] == x);
                        }
                    }
                } else {
                    assert(now_a == was_a);
                }
                if take_b {
                    assert(b@[old_j] == e);
                    assert(now_b <==> was_b || x == e) by {
                        if now_b {
                            let k = choose|k: int| 0 <= k < j && k < b@.len() && b@[k] == x;
                            if k < old_j {
                                assert(was_b);
                            }
                        }
                        if was_b {
                            let k = choose|k: int| 0 <= k < old_j && k < b@.len() && b@[k] == x;
                            assert(0 <= k < j && b@[k] == x);
                        }
                    }
                } else {
                    assert(now_b == was_b);
                }
                // `e` was in neither prefix, nor in the output
                if x == e {
                    if was_a {
                        let k = choose|k: int| 0 <= k < old_i && k < a@.len() && a@[k] == x;
                        if take_a {
                            assert(a@[k] < a@[old_i]);
                        } else {
                            assert(a@[k] < b@[old_j]);
                        }
                    }
                    if was_b {
                        let k = choose|k: int| 0 <= k < old_j && k < b@.len() && b@[k] == x;
                        if take_b {
                            assert(b@[k] < b@[old_j]);
                        } else {
                            assert(b@[k] < a@[old_i]);
                        }
                    }
                    assert(!was_a && !was_b);
                    if in_prefix(old_out, old_out.len() as int, x) {
                        let k = choose|k: int| 0 <= k < old_out.len() && old_out[k] == x;
                        assert(false);
                    }
                }
                if keep {
                    assert(out@ == old_out.push(e));
                    if in_prefix(out@, out@.len() as int, x) {
                        let k = choose|k: int| 0 <= k < out@.len() && out@[k] == x;
                        if k < old_out.len() {
                            assert(old_out[k] == x);
                            assert(in_prefix(old_out, old_out.len() as int, x));
                        }
                    }
                    if in_prefix(old_out, old_out.len() as int, x) {
                        let k = choose|k: int| 0 <= k < old_out.len() && old_out[k] == x;
                        assert(out@[k] == x);
                    }
                    assert(out@[old_out.len() as int] == e);
                    assert(in_prefix(out@, out@.len() as int, x) <==> in_prefix(
                        old_out,
                        old_out.len() as int,
                        x,
                    ) || x == e);
                }
            }
        }
    }
    out
}

impl IdSet {
    /// The elements are kept in strictly ascending order.
    #[verifier::type_invariant]
    pub closed spec fn wf(self) -> bool {
        strictly_ascending(self.elems@)
    }

    /// The elements in ascending order.
    pub closed spec fn elements(self) -> Seq<u32> {
        self.elems@
    }

    /// What the slice of the elements says of the set.
    pub proof fn lemma_elements_of_slice(self, ids: Seq<u32>)
        requires
            ids == self.elements(),
        ensures
            forall|x: u32| self@.contains(x) <==> ids.contains(x),
    {
        let s = self.elems@;
        assert forall|x: u32| self@.contains(x) <==> s.contains(x) by {
            if s.contains(x) {
                let k = choose|k: int| 0 <= k < s.len() && s[k] == x;
                assert(in_prefix(s, s.len() as int, x));
            }
        }
    }

    /// The empty set.
    pub fn new() -> (s: IdSet)
        ensures
            s.wf(),
            s@ == Set::<u32>::empty(),
            s.elements() == Seq::<u32>::empty(),
    {
        let s = IdSet { elems: Vec::new() };
        proof {
            assert(s@ =~= Set::<u32>::empty());
        }
        s
    }

    /// The set of the given ids.
    pub fn from_slice(ids: &[u32]) -> (s: IdSet)
        ensures
            s.wf(),
            forall|x: u32| s@.contains(x) <==> ids@.contains(x),
    {
        let mut s = IdSet::new();
        let mut i: usize = 0;
        while i < ids.len()
            invariant
                i <= ids.len(),
                s.wf(),
                forall|x: u32| s@.contains(x) <==> ids@.take(i as int).contains(x),
            decreases ids.len() - i,
        {
            let ghost before = s@;
            s.insert(ids[i]);
            proof {
                assert forall|x: u32| s@.contains(x) <==> ids@.take(i + 1).contains(x) by {
                    let t0 = ids@.take(i as int);
                    let t1 = ids@.take(i + 1);
                    if t1.contains(x) {
                        let k = choose|k: int| 0 <= k < t1.len() && t1[k] == x;
                        if k < i {
                            assert(t0[k] == x);
                        }
                    }
                    if t0.contains(x) {
                        let k = choose|k: int| 0 <= k < t0.len() && t0[k] == x;
                        assert(t1[k] == x);
                    }
                    assert(t1[i as int] == ids@[i as int]);
                }
            }
            i += 1;
        }
        proof {
            assert(ids@.take(ids@.len() as int) =~= ids@);
        }
        s
    }

    /// Number of elements.
    pub fn len(&self) -> (n: usize)
        ensures
            n == self.elements().len(),
    {
        self.elems.len()
    }

    pub fn is_empty(&self) -> (e: bool)
        ensures
            e == (self@ == Set::<u32>::empty()),
    {
        proof {
            if self.elems@.len() > 0 {
                assert(in_prefix(self.elems@, self.elems@.len() as int, self.elems@[0]));
                assert(self@.contains(self.elems@[0]));
            } else {
                assert(self@ =~= Set::<u32>::empty());
            }
        }
        self.elems.len() == 0
    }

    /// The elements in ascending order.
    pub fn as_slice(&self) -> (ids: &[u32])
        ensures
            ids@ == self.elements(),
            strictly_ascending(ids@),
    {
        proof {
            use_type_invariant(self);
        }
        self.elems.as_slice()
    }

    /// Whether `x` is in the set.
    pub fn contains(&self, x: u32) -> (r: bool)
        ensures
            r == self@.contains(x),
    {
        let mut i: usize = 0;
        while i < self.elems.len()
            invariant
                i <= self.elems.len(),
                !in_prefix(self.elems@, i as int, x),
            decreases self.elems.len() - i,
        {
            if self.elems[i] == x {
                assert(in_prefix(self.elems@, self.elems@.len() as int, x));
                return true;
            }
            proof {
                if in_prefix(self.elems@, i + 1, x) {
                    let k = choose|k: int| 0 <= k < i + 1 && k < self.elems@.len() && self.elems@[k] == x;
                    assert(in_prefix(self.elems@, i as int, x));
                }
            }
            i += 1;
        }
        false
    }

    /// Adds `x` to the set.
    pub fn insert(&mut self, x: u32)
        ensures
            final(self).wf(),
            final(self)@ == old(self)@.insert(x),
    {
        proof {
            use_type_invariant(&*self);
        }
        let mut single: Vec<u32> = Vec::new();
        single.push(x);
        let merged = merge(&self.elems, &single, true, true, true);
        proof {
            let s = old(self).elems@;
            assert(single@[0] == x);
            assert(in_prefix(single@, 1, x));
            assert forall|y: u32|
                in_prefix(merged@, merged@.len() as int, y) <==> (in_prefix(s, s.len() as int, y)
                    || y == x) by {
                if in_prefix(single@, single@.len() as int, y) {
                    let k = choose|k: int| 0 <= k < 1 && k < single@.len() && single@[k] == y;
                }
            }
        }
        self.elems = merged;
        proof {
            assert(final(self)@ =~= old(self)@.insert(x));
        }
    }

    /// The elements of either set.
    pub fn union(&self, other: &IdSet) -> (r: IdSet)
        ensures
            r.wf(),
            r@ == self@.union(other@),
    {
        proof {
            use_type_invariant(self);
            use_type_invariant(other);
        }
        let r = IdSet { elems: merge(&self.elems, &other.elems, true, true, true) };
        proof {
            assert(r@ =~= self@.union(other@));
        }
        r
    }

    /// The elements of both sets.
    pub fn intersection(&self, other: &IdSet) -> (r: IdSet)
        ensures
            r.wf(),
            r@ == self@.intersect(other@),
    {
        proof {
            use_type_invariant(self);
            use_type_invariant(other);
        }
        let r = IdSet { elems: merge(&self.elems, &other.elems, false, true, false) };
        proof {
            assert(r@ =~= self@.intersect(other@));
        }
        r
    }

    /// The elements of this set that are not in the other.
    pub fn difference(&self, other: &IdSet) -> (r: IdSet)
        ensures
            r.wf(),
            r@ == self@.difference(other@),
    {
        proof {
            use_type_invariant(self);
            use_type_invariant(other);
        }
        let r = IdSet { elems: merge(&self.elems, &other.elems, true, false, false) };
        proof {
            assert(r@ =~= self@.difference(other@));
        }
        r
    }

    /// Whether two sets hold the same elements.
    pub fn same(&self, other: &IdSet) -> (r: bool)
        ensures
            r == (self@ == other@),
    {
        proof {
            use_type_invariant(self);
            use_type_invariant(other);
            if self@ == other@ {
                assert forall|x: u32|
                    in_prefix(self.elems@, self.elems@.len() as int, x) <==> in_prefix(
                        other.elems@,
                        other.elems@.len() as int,
                        x,
                    ) by {
                    assert(self@.contains(x) == other@.contains(x));
                }
                lemma_ascending_unique(self.elems@, other.elems@);
            }
        }
        if self.elems.len() != other.elems.len() {
            return false;
        }
        let mut i: usize = 0;
        while i < self.elems.len()
            invariant
                i <= self.elems.len(),
                self.elems.len() == other.elems.len(),
                self@ == other@ ==> self.elems@ == other.elems@,
                forall|k: int| 0 <= k < i ==> self.elems@[k] == other.elems@[k],
            decreases self.elems.len() - i,
        {
            if self.elems[i] != other.elems[i] {
                return false;
            }
            i += 1;
        }
        proof {
            assert(self.elems@ =~= other.elems@);
        }
        true
    }
}

} // verus!
