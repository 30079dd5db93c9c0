//! The accumulator of a set: four group elements whose exponents are sums
//! over the elements of the set.

use crate::acc::curve::{g1_power, g2_power, G1Point, G2Point};
use crate::acc::field::{modulus, pow_mod, Scalar};
use crate::acc::keys::{cross_term, AccPublicKey, AccSecretKeyWithPowCache, SetupError};
use crate::acc::set::{strictly_ascending, IdSet};
use crate::digest::{blake2, Digest, Digestible};
use vstd::arithmetic::div_mod::{lemma_add_mod_noop, lemma_small_mod};
use vstd::prelude::*;

verus! {

/// The sum of `term(i)` over the elements `i` of `set` with `1 <= i <= n`.
pub open spec fn sum_over(set: Set<u32>, term: spec_fn(nat) -> nat, n: nat) -> nat
    decreases n,
{
    if n == 0 {
        0
    } else {
        sum_over(set, term, (n - 1) as nat) + if n <= u32::MAX && set.contains(n as u32) {
            term(n)
        } else {
            0
        }
    }
}

/// The sum of `term` over the elements of a sequence.
pub open spec fn sum_seq(ids: Seq<u32>, term: spec_fn(nat) -> nat) -> nat
    decreases ids.len(),
{
    if ids.len() == 0 {
        0
    } else {
        sum_seq(ids.drop_last(), term) + term(ids.last() as nat)
    }
}

/// The four exponents of an accumulator.
pub struct AccExponents {
    pub s: nat,
    pub r: nat,
    pub s_r: nat,
    pub r_s: nat,
}

/// The bytes of the four points of an accumulator.
pub struct AccPoints {
    pub g_s: Seq<u8>,
    pub g_r: Seq<u8>,
    pub h_s_r: Seq<u8>,
    pub h_r_s: Seq<u8>,
}

/// The exponents of the accumulator of `set` under the trapdoor `(s, r)` and
/// the bound `q`: the sums of `s^i`, of `r^i`, of `s^i * r^(q-i)` and of
/// `r^i * s^(q-i)` over the elements `i`, in the scalar field.
pub open spec fn exponents_of(set: Set<u32>, s: nat, r: nat, q: nat) -> AccExponents {
    AccExponents {
        s: sum_over(set, |i: nat| pow_mod(s, i), q) % modulus(),
        r: sum_over(set, |i: nat| pow_mod(r, i), q) % modulus(),
        s_r: sum_over(set, |i: nat| cross_term(s, r, q, i), q) % modulus(),
        r_s: sum_over(set, |i: nat| cross_term(r, s, q, i), q) % modulus(),
    }
}

/// The points with the given exponents: multiples of the two generators.
pub open spec fn points_of(e: AccExponents) -> AccPoints {
    AccPoints {
        g_s: g1_power(e.s),
        g_r: g1_power(e.r),
        h_s_r: g2_power(e.s_r),
        h_r_s: g2_power(e.r_s),
    }
}

/// The accumulator of the empty set: all four exponents are zero, whatever
/// the trapdoor.
pub open spec fn empty_points() -> AccPoints {
    points_of(AccExponents { s: 0, r: 0, s_r: 0, r_s: 0 })
}

/// The accumulator of `set` under the trapdoor `(s, r)` and the bound `q`.
pub open spec fn acc_of(set: Set<u32>, s: nat, r: nat, q: nat) -> AccPoints {
    points_of(exponents_of(set, s, r, q))
}

/// The exponents of a sum of two accumulators.
pub open spec fn exponents_sum(x: AccExponents, y: AccExponents) -> AccExponents {
    AccExponents {
        s: (x.s + y.s) % modulus(),
        r: (x.r + y.r) % modulus(),
        s_r: (x.s_r + y.s_r) % modulus(),
        r_s: (x.r_s + y.r_s) % modulus(),
    }
}

/// The exponent of the inverse of a point with exponent `x`.
pub open spec fn negated(x: nat) -> nat {
    ((modulus() - x) % (modulus() as int)) as nat
}

/// The exponents of a difference of two accumulators.
pub open spec fn exponents_difference(x: AccExponents, y: AccExponents) -> AccExponents {
    AccExponents {
        s: (x.s + negated(y.s)) % modulus(),
        r: (x.r + negated(y.r)) % modulus(),
        s_r: (x.s_r + negated(y.s_r)) % modulus(),
        r_s: (x.r_s + negated(y.r_s)) % modulus(),
    }
}

/// Whether all four exponents are below the group order.
pub open spec fn reduced(e: AccExponents) -> bool {
    e.s < modulus() && e.r < modulus() && e.s_r < modulus() && e.r_s < modulus()
}

/// Whether `c` is the sum of `a` and `b`: whatever exponents below the group
/// order `a` and `b` have, `c` has their sums.
pub open spec fn is_sum(a: AccPoints, b: AccPoints, c: AccPoints) -> bool {
    forall|x: AccExponents, y: AccExponents|
        #![trigger points_of(x), points_of(y)]
        reduced(x) && reduced(y) && a == points_of(x) && b == points_of(y) ==> c == points_of(
            exponents_sum(x, y),
        )
}

/// Whether `c` is the difference of `a` and `b`.
pub open spec fn is_difference(a: AccPoints, b: AccPoints, c: AccPoints) -> bool {
    forall|x: AccExponents, y: AccExponents|
        #![trigger points_of(x), points_of(y)]
        reduced(x) && reduced(y) && a == points_of(x) && b == points_of(y) ==> c == points_of(
            exponents_difference(x, y),
        )
}

/// The bytes that the digest of an accumulator is taken of: the four points
/// in their order.
pub open spec fn acc_bytes(p: AccPoints) -> Seq<u8> {
    p.g_s + p.g_r + p.h_s_r + p.h_r_s
}

/// Whether every element of `set` lies in `1..=q`.
pub open spec fn within_bound(set: Set<u32>, q: nat) -> bool {
    forall|x: u32| #[trigger] set.contains(x) ==> 1 <= x <= q
}

/// The sum along an ascending sequence of the elements of a set in `1..=n`
/// is the sum over the set.
pub proof fn lemma_sum_seq_is_sum_over(
    ids: Seq<u32>,
    set: Set<u32>,
    term: spec_fn(nat) -> nat,
    n: nat,
)
    requires
        strictly_ascending(ids),
        forall|k: int| 0 <= k < ids.len() ==> 1 <= #[trigger] ids[k] <= n,
        forall|k: int| 0 <= k < ids.len() ==> set.contains(#[trigger] ids[k]),
        forall|x: u32| 1 <= x <= n && #[trigger] set.contains(x) ==> ids.contains(x),
    ensures
        sum_seq(ids, term) == sum_over(set, term, n),
    decreases n,
{
    if n == 0 {
        if ids.len() > 0 {
            assert(1 <= ids[0] <= n);
        }
    } else if ids.len() > 0 && ids.last() == n {
        let rest = ids.drop_last();
        assert(set.contains(ids[ids.len() - 1]));
        assert forall|x: u32| 1 <= x <= n - 1 && #[trigger] set.contains(x) implies rest.contains(
            x,
        ) by {
            assert(ids.contains(x));
            let k = choose|k: int| 0 <= k < ids.len() && ids[k] == x;
            assert(rest[k] == x);
        }
        assert forall|k: int| 0 <= k < rest.len() implies 1 <= #[trigger] rest[k] <= n - 1 by {
            assert(ids[k] < ids[ids.len() - 1]);
        }
        lemma_sum_seq_is_sum_over(rest, set, term, (n - 1) as nat);
    } else {
        if n <= u32::MAX && set.contains(n as u32) {
            assert(ids.contains(n as u32));
            let k = choose|k: int| 0 <= k < ids.len() && ids[k] == n as u32;
            assert(ids[k] <= ids[ids.len() - 1]);
        }
        assert forall|k: int| 0 <= k < ids.len() implies 1 <= #[trigger] ids[k] <= n - 1 by {
            assert(ids[k] <= ids[ids.len() - 1]);
        }
        lemma_sum_seq_is_sum_over(ids, set, term, (n - 1) as nat);
    }
}

/// The accumulator of a set.
#[derive(Debug, Clone, Copy)]
pub struct AccValue {
    g_s: G1Point,
    g_r: G1Point,
    h_s_r: G2Point,
    h_r_s: G2Point,
}

impl View for AccValue {
    type V = AccPoints;

    closed spec fn view(&self) -> AccPoints {
        AccPoints { g_s: self.g_s@, g_r: self.g_r@, h_s_r: self.h_s_r@, h_r_s: self.h_r_s@ }
    }
}

impl AccValue {
    /// The four components are points of their groups.
    #[verifier::type_invariant]
    pub closed spec fn wf(self) -> bool {
        self.g_s.wf() && self.g_r.wf() && self.h_s_r.wf() && self.h_r_s.wf()
    }

    /// An accumulator has exponents below the group order.
    pub proof fn lemma_wf(self)
        requires
            self.wf(),
        ensures
            exists|e: AccExponents| reduced(e) && self@ == points_of(e),
    {
        self.g_s.lemma_wf();
        self.g_r.lemma_wf();
        self.h_s_r.lemma_wf();
        self.h_r_s.lemma_wf();
        let a = choose|x: nat| x < modulus() && self.g_s@ == g1_power(x);
        let b = choose|x: nat| x < modulus() && self.g_r@ == g1_power(x);
        let c = choose|x: nat| x < modulus() && self.h_s_r@ == g2_power(x);
        let d = choose|x: nat| x < modulus() && self.h_r_s@ == g2_power(x);
        let e = AccExponents { s: a, r: b, s_r: c, r_s: d };
        assert(self@ == points_of(e));
    }

    /// The accumulator with the given components.
    pub fn new(g_s: G1Point, g_r: G1Point, h_s_r: G2Point, h_r_s: G2Point) -> (acc: AccValue)
        ensures
            acc.wf(),
            acc@ == (AccPoints { g_s: g_s@, g_r: g_r@, h_s_r: h_s_r@, h_r_s: h_r_s@ }),
    {
        proof {
            use_type_invariant(g_s);
            use_type_invariant(g_r);
            use_type_invariant(h_s_r);
            use_type_invariant(h_r_s);
        }
        AccValue { g_s, g_r, h_s_r, h_r_s }
    }

    /// The accumulator of `set` from the trapdoor: the four sums are taken in
    /// the scalar field, and each generator is multiplied once.
    pub fn from_set_sk(set: &IdSet, sk: &AccSecretKeyWithPowCache, q: u64) -> (res: Result<
        AccValue,
        SetupError,
    >)
        ensures
            res is Ok <==> within_bound(set@, q as nat),
            res matches Err(e) ==> e == SetupError::ElementOutOfRange,
            res matches Ok(acc) ==> acc.wf() && acc@ == acc_of(set@, sk.s(), sk.r(), q as nat),
    {
        let ids = set.as_slice();
        let ghost s = sk.s();
        let ghost r = sk.r();
        let ghost t1 = |i: nat| pow_mod(s, i);
        let ghost t2 = |i: nat| pow_mod(r, i);
        let ghost t3 = |i: nat| cross_term(s, r, q as nat, i);
        let ghost t4 = |i: nat| cross_term(r, s, q as nat, i);
        let mut x_s = Scalar::from_u64(0);
        let mut x_r = Scalar::from_u64(0);
        let mut x_s_r = Scalar::from_u64(0);
        let mut x_r_s = Scalar::from_u64(0);
        proof {
            set.lemma_elements_of_slice(ids@);
            lemma_small_mod(0, modulus());
        }
        let mut k: usize = 0;
        while k < ids.len()
            invariant
                k <= ids.len(),
                s == sk.s(),
                r == sk.r(),
                t1 == |i: nat| pow_mod(s, i),
                t2 == |i: nat| pow_mod(r, i),
                t3 == |i: nat| cross_term(s, r, q as nat, i),
                t4 == |i: nat| cross_term(r, s, q as nat, i),
                forall|x: u32| set@.contains(x) <==> ids@.contains(x),
                forall|j: int| 0 <= j < k ==> 1 <= #[trigger] ids@[j] <= q,
                x_s.wf(),
                x_r.wf(),
                x_s_r.wf(),
                x_r_s.wf(),
                x_s@ == sum_seq(ids@.take(k as int), t1) % modulus(),
                x_r@ == sum_seq(ids@.take(k as int), t2) % modulus(),
                x_s_r@ == sum_seq(ids@.take(k as int), t3) % modulus(),
                x_r_s@ == sum_seq(ids@.take(k as int), t4) % modulus(),
            decreases ids.len() - k,
        {
            let id = ids[k];
            if id == 0 || id as u64 > q {
                proof {
                    assert(ids@.contains(id));
                    assert(set@.contains(id));
                }
                return Err(SetupError::ElementOutOfRange);
            }
            let i = id as u64;
            proof {
                let done = ids@.take(k as int);
                let next = ids@.take(k + 1);
                assert(next.drop_last() =~= done);
                assert(next.last() == id);
                lemma_add_mod_noop(sum_seq(done, t1) as int, t1(id as nat) as int, modulus() as int);
                lemma_add_mod_noop(sum_seq(done, t2) as int, t2(id as nat) as int, modulus() as int);
                lemma_add_mod_noop(sum_seq(done, t3) as int, t3(id as nat) as int, modulus() as int);
                lemma_add_mod_noop(sum_seq(done, t4) as int, t4(id as nat) as int, modulus() as int);
                lemma_small_mod(t1(id as nat), modulus());
                lemma_small_mod(t2(id as nat), modulus());
                lemma_small_mod(t3(id as nat), modulus());
                lemma_small_mod(t4(id as nat), modulus());
            }
            let s_i = sk.s_pow(i);
            let r_i = sk.r_pow(i);
            let s_q_i = sk.s_pow(q - i);
            let r_q_i = sk.r_pow(q - i);
            x_s = x_s.add(&s_i);
            x_r = x_r.add(&r_i);
            x_s_r = x_s_r.add(&s_i.mul(&r_q_i));
            x_r_s = x_r_s.add(&r_i.mul(&s_q_i));
            k += 1;
        }
        proof {
            assert(ids@.take(ids@.len() as int) =~= ids@);
            assert forall|x: u32| #[trigger] set@.contains(x) implies 1 <= x <= q by {
                assert(ids@.contains(x));
                let j = choose|j: int| 0 <= j < ids@.len() && ids@[j] == x;
                assert(1 <= ids@[j] <= q);
            }
            lemma_sum_seq_is_sum_over(ids@, set@, t1, q as nat);
            lemma_sum_seq_is_sum_over(ids@, set@, t2, q as nat);
            lemma_sum_seq_is_sum_over(ids@, set@, t3, q as nat);
            lemma_sum_seq_is_sum_over(ids@, set@, t4, q as nat);
        }
        Ok(
            AccValue {
                g_s: sk.g_pow(&x_s),
                g_r: sk.g_pow(&x_r),
                h_s_r: sk.h_pow(&x_s_r),
                h_r_s: sk.h_pow(&x_r_s),
            },
        )
    }

    /// The accumulator of the empty set: four times the point at infinity.
    pub fn empty() -> (acc: AccValue)
        ensures
            acc.wf(),
            acc@ == empty_points(),
            forall|s: nat, r: nat, q: nat| acc@ == #[trigger] acc_of(Set::<u32>::empty(), s, r, q),
    {
        let acc = AccValue {
            g_s: G1Point::zero(),
            g_r: G1Point::zero(),
            h_s_r: G2Point::zero(),
            h_r_s: G2Point::zero(),
        };
        proof {
            assert forall|s: nat, r: nat, q: nat| acc@ == #[trigger] acc_of(
                Set::<u32>::empty(),
                s,
                r,
                q,
            ) by {
                lemma_empty_exponents(s, r, q);
            }
        }
        acc
    }

    /// Whether two accumulators are the same four points.
    pub fn same(&self, other: &AccValue) -> (r: bool)
        ensures
            r == (self@ == other@),
    {
        self.g_s.same(&other.g_s) && self.g_r.same(&other.g_r) && self.h_s_r.same(&other.h_s_r)
            && self.h_r_s.same(&other.h_r_s)
    }

    /// The accumulator of `set` from the public key: for each component, the
    /// sum of the key's points at the elements of the set.
    pub fn from_set(set: &IdSet, pk: &AccPublicKey) -> (res: Result<AccValue, SetupError>)
        ensures
            res is Ok <==> within_bound(set@, pk.bound()),
            res matches Err(e) ==> e == SetupError::ElementOutOfRange,
            res matches Ok(acc) ==> acc.wf() && acc@ == acc_of(set@, pk.s(), pk.r(), pk.bound()),
    {
        let q = pk.q();
        let ids = set.as_slice();
        let ghost s = pk.s();
        let ghost r = pk.r();
        let ghost t1 = |i: nat| pow_mod(s, i);
        let ghost t2 = |i: nat| pow_mod(r, i);
        let ghost t3 = |i: nat| cross_term(s, r, q as nat, i);
        let ghost t4 = |i: nat| cross_term(r, s, q as nat, i);
        let mut g_s = G1Point::zero();
        let mut g_r = G1Point::zero();
        let mut h_s_r = G2Point::zero();
        let mut h_r_s = G2Point::zero();
        proof {
            set.lemma_elements_of_slice(ids@);
            lemma_small_mod(0, modulus());
        }
        let mut k: usize = 0;
        while k < ids.len()
            invariant
                k <= ids.len(),
                q == pk.bound(),
                s == pk.s(),
                r == pk.r(),
                t1 == |i: nat| pow_mod(s, i),
                t2 == |i: nat| pow_mod(r, i),
                t3 == |i: nat| cross_term(s, r, q as nat, i),
                t4 == |i: nat| cross_term(r, s, q as nat, i),
                forall|x: u32| set@.contains(x) <==> ids@.contains(x),
                forall|j: int| 0 <= j < k ==> 1 <= #[trigger] ids@[j] <= q,
                g_s.wf(),
                g_r.wf(),
                h_s_r.wf(),
                h_r_s.wf(),
                g_s@ == g1_power(sum_seq(ids@.take(k as int), t1) % modulus()),
                g_r@ == g1_power(sum_seq(ids@.take(k as int), t2) % modulus()),
                h_s_r@ == g2_power(sum_seq(ids@.take(k as int), t3) % modulus()),
                h_r_s@ == g2_power(sum_seq(ids@.take(k as int), t4) % modulus()),
            decreases ids.len() - k,
        {
            let id = ids[k];
            if id == 0 || id as u64 > q {
                proof {
                    assert(ids@.contains(id));
                    assert(set@.contains(id));
                }
                return Err(SetupError::ElementOutOfRange);
            }
            let i = id as u64;
            proof {
                let done = ids@.take(k as int);
                let next = ids@.take(k + 1);
                assert(next.drop_last() =~= done);
                assert(next.last() == id);
                lemma_add_mod_noop(sum_seq(done, t1) as int, t1(id as nat) as int, modulus() as int);
                lemma_add_mod_noop(sum_seq(done, t2) as int, t2(id as nat) as int, modulus() as int);
                lemma_add_mod_noop(sum_seq(done, t3) as int, t3(id as nat) as int, modulus() as int);
                lemma_add_mod_noop(sum_seq(done, t4) as int, t4(id as nat) as int, modulus() as int);
                lemma_small_mod(t1(id as nat), modulus());
                lemma_small_mod(t2(id as nat), modulus());
                lemma_small_mod(t3(id as nat), modulus());
                lemma_small_mod(t4(id as nat), modulus());
            }
            g_s = g_s.add(&pk.get_g_s_i(i));
            g_r = g_r.add(&pk.get_g_r_i(i));
            h_s_r = h_s_r.add(&pk.get_h_s_r_i(i));
            h_r_s = h_r_s.add(&pk.get_h_r_s_i(i));
            k += 1;
        }
        proof {
            assert(ids@.take(ids@.len() as int) =~= ids@);
            assert forall|x: u32| #[trigger] set@.contains(x) implies 1 <= x <= q by {
                assert(ids@.contains(x));
                let j = choose|j: int| 0 <= j < ids@.len() && ids@[j] == x;
                assert(1 <= ids@[j] <= q);
            }
            lemma_sum_seq_is_sum_over(ids@, set@, t1, q as nat);
            lemma_sum_seq_is_sum_over(ids@, set@, t2, q as nat);
            lemma_sum_seq_is_sum_over(ids@, set@, t3, q as nat);
            lemma_sum_seq_is_sum_over(ids@, set@, t4, q as nat);
        }
        Ok(AccValue { g_s, g_r, h_s_r, h_r_s })
    }
}

impl core::ops::Add for AccValue {
    type Output = AccValue;

    /// The component-wise sum.
    fn add(self, rhs: AccValue) -> (sum: AccValue)
        ensures
            sum.wf(),
            is_sum(self@, rhs@, sum@),
    {
        AccValue {
            g_s: self.g_s.add(&rhs.g_s),
            g_r: self.g_r.add(&rhs.g_r),
            h_s_r: self.h_s_r.add(&rhs.h_s_r),
            h_r_s: self.h_r_s.add(&rhs.h_r_s),
        }
    }
}

impl vstd::std_specs::ops::AddSpecImpl for AccValue {
    open spec fn obeys_add_spec() -> bool {
        false
    }

    open spec fn add_req(self, rhs: AccValue) -> bool {
        true
    }

    open spec fn add_spec(self, rhs: AccValue) -> AccValue {
        self
    }
}

impl core::ops::Sub for AccValue {
    type Output = AccValue;

    /// The component-wise difference: the sum with the inverse.
    fn sub(self, rhs: AccValue) -> (difference: AccValue)
        ensures
            difference.wf(),
            is_difference(self@, rhs@, difference@),
    {
        AccValue {
            g_s: self.g_s.add(&rhs.g_s.neg()),
            g_r: self.g_r.add(&rhs.g_r.neg()),
            h_s_r: self.h_s_r.add(&rhs.h_s_r.neg()),
            h_r_s: self.h_r_s.add(&rhs.h_r_s.neg()),
        }
    }
}

impl vstd::std_specs::ops::SubSpecImpl for AccValue {
    open spec fn obeys_sub_spec() -> bool {
        false
    }

    open spec fn sub_req(self, rhs: AccValue) -> bool {
        true
    }

    open spec fn sub_spec(self, rhs: AccValue) -> AccValue {
        self
    }
}

impl PartialEq for AccValue {
    fn eq(&self, other: &AccValue) -> (r: bool) {
        self.same(other)
    }
}

impl vstd::std_specs::cmp::PartialEqSpecImpl for AccValue {
    open spec fn obeys_eq_spec() -> bool {
        true
    }

    open spec fn eq_spec(&self, other: &AccValue) -> bool {
        self@ == other@
    }
}

impl Digestible for AccValue {
    open spec fn digest_of(&self) -> Digest {
        Digest::hash_of(acc_bytes(self@))
    }

    fn to_digest(&self) -> (d: Digest) {
        let mut state = blake2();
        state.update(self.g_s.as_bytes());
        state.update(self.g_r.as_bytes());
        state.update(self.h_s_r.as_bytes());
        state.update(self.h_r_s.as_bytes());
        proof {
            assert(state@ =~= acc_bytes(self@));
        }
        state.finalize()
    }
}

/// Nothing is summed over the empty set.
pub proof fn lemma_empty_exponents(s: nat, r: nat, q: nat)
    ensures
        exponents_of(Set::<u32>::empty(), s, r, q) == (AccExponents { s: 0, r: 0, s_r: 0, r_s: 0 }),
{
    let e = Set::<u32>::empty();
    lemma_sum_over_empty(|i: nat| pow_mod(s, i), q);
    lemma_sum_over_empty(|i: nat| pow_mod(r, i), q);
    lemma_sum_over_empty(|i: nat| cross_term(s, r, q, i), q);
    lemma_sum_over_empty(|i: nat| cross_term(r, s, q, i), q);
    lemma_small_mod(0, modulus());
}

/// The sum over the empty set is zero.
pub proof fn lemma_sum_over_empty(term: spec_fn(nat) -> nat, n: nat)
    ensures
        sum_over(Set::<u32>::empty(), term, n) == 0,
    decreases n,
{
    if n > 0 {
        lemma_sum_over_empty(term, (n - 1) as nat);
    }
}

/// The sum over a union of two disjoint sets is the sum of their sums.
pub proof fn lemma_sum_over_union(a: Set<u32>, b: Set<u32>, term: spec_fn(nat) -> nat, n: nat)
    requires
        a.disjoint(b),
    ensures
        sum_over(a.union(b), term, n) == sum_over(a, term, n) + sum_over(b, term, n),
    decreases n,
{
    if n > 0 {
        lemma_sum_over_union(a, b, term, (n - 1) as nat);
        if n <= u32::MAX {
            assert(!(a.contains(n as u32) && b.contains(n as u32)));
        }
    }
}

/// Both ways of building an accumulator give the same value: the one from
/// the public key and the one from the trapdoor that the key was made from.
pub proof fn lemma_dual_path(
    from_pk: AccValue,
    from_sk: AccValue,
    set: Set<u32>,
    pk: AccPublicKey,
    sk: AccSecretKeyWithPowCache,
)
    requires
        pk.s() == sk.s(),
        pk.r() == sk.r(),
        from_pk@ == acc_of(set, pk.s(), pk.r(), pk.bound()),
        from_sk@ == acc_of(set, sk.s(), sk.r(), pk.bound()),
    ensures
        from_pk@ == from_sk@,
{
}

/// Additive homomorphism: the sum of the accumulators of two disjoint sets
/// is the accumulator of their union.
pub proof fn lemma_sum_is_union(
    a: AccPoints,
    b: AccPoints,
    c: AccPoints,
    set_a: Set<u32>,
    set_b: Set<u32>,
    s: nat,
    r: nat,
    q: nat,
)
    requires
        set_a.disjoint(set_b),
        a == acc_of(set_a, s, r, q),
        b == acc_of(set_b, s, r, q),
        is_sum(a, b, c),
    ensures
        c == acc_of(set_a.union(set_b), s, r, q),
{
    let x = exponents_of(set_a, s, r, q);
    let y = exponents_of(set_b, s, r, q);
    assert(a == points_of(x) && b == points_of(y));
    assert(c == points_of(exponents_sum(x, y)));
    let m = modulus() as int;
    let t1 = |i: nat| pow_mod(s, i);
    let t2 = |i: nat| pow_mod(r, i);
    let t3 = |i: nat| cross_term(s, r, q, i);
    let t4 = |i: nat| cross_term(r, s, q, i);
    lemma_sum_over_union(set_a, set_b, t1, q);
    lemma_sum_over_union(set_a, set_b, t2, q);
    lemma_sum_over_union(set_a, set_b, t3, q);
    lemma_sum_over_union(set_a, set_b, t4, q);
    lemma_add_mod_noop(sum_over(set_a, t1, q) as int, sum_over(set_b, t1, q) as int, m);
    lemma_add_mod_noop(sum_over(set_a, t2, q) as int, sum_over(set_b, t2, q) as int, m);
    lemma_add_mod_noop(sum_over(set_a, t3, q) as int, sum_over(set_b, t3, q) as int, m);
    lemma_add_mod_noop(sum_over(set_a, t4, q) as int, sum_over(set_b, t4, q) as int, m);
    assert(exponents_sum(x, y) == exponents_of(set_a.union(set_b), s, r, q));
}

/// Taking away what was added: `(x + y) - y` is `x` in the scalar field.
pub proof fn lemma_add_then_negate(x: nat, y: nat)
    ensures
        (((x + y) % modulus()) + negated(y % modulus())) % modulus() == x % modulus(),
{
    let m = modulus() as int;
    let yr = (y % modulus()) as int;
    vstd::arithmetic::div_mod::lemma_mod_bound(y as int, m);
    if yr == 0 {
        vstd::arithmetic::div_mod::lemma_mod_self_0(m);
        assert(negated(y % modulus()) == 0);
        lemma_add_mod_noop(x as int, y as int, m);
        vstd::arithmetic::div_mod::lemma_mod_twice(x as int, m);
        lemma_small_mod((x % modulus()) as nat, modulus());
        vstd::arithmetic::div_mod::lemma_mod_bound(x as int, m);
        vstd::arithmetic::div_mod::lemma_mod_bound((x + y) as int, m);
        lemma_small_mod(((x + y) % modulus()) as nat, modulus());
    } else {
        lemma_small_mod((m - yr) as nat, modulus());
        assert(negated(y % modulus()) == m - yr);
        // (x + y) % m + (m - y % m)  is congruent to  x + m
        lemma_add_mod_noop(((x + y) % modulus()) as int, m - yr, m);
        vstd::arithmetic::div_mod::lemma_mod_twice((x + y) as int, m);
        lemma_add_mod_noop((x + y) as int, m - yr, m);
        lemma_add_mod_noop(x as int, y + m - yr, m);
        lemma_add_mod_noop(y as int, m - yr, m);
        vstd::arithmetic::div_mod::lemma_mod_self_0(m);
        lemma_add_mod_noop(yr, m - yr, m);
        vstd::arithmetic::div_mod::lemma_mod_twice(y as int, m);
        assert((y + m - yr) % m == 0);
        lemma_small_mod(0, modulus());
        vstd::arithmetic::div_mod::lemma_mod_twice(x as int, m);
        assert((x + y + m - yr) % m == (x as int) % m);
    }
}

/// The difference of the accumulators of a set and of a subset of it is the
/// accumulator of what is left.
pub proof fn lemma_difference_is_difference(
    a: AccPoints,
    b: AccPoints,
    c: AccPoints,
    set_a: Set<u32>,
    set_b: Set<u32>,
    s: nat,
    r: nat,
    q: nat,
)
    requires
        set_b.subset_of(set_a),
        a == acc_of(set_a, s, r, q),
        b == acc_of(set_b, s, r, q),
        is_difference(a, b, c),
    ensures
        c == acc_of(set_a.difference(set_b), s, r, q),
{
    let x = exponents_of(set_a, s, r, q);
    let y = exponents_of(set_b, s, r, q);
    let m = modulus() as int;
    let rest = set_a.difference(set_b);
    assert(rest.disjoint(set_b));
    assert(rest.union(set_b) =~= set_a);
    let t1 = |i: nat| pow_mod(s, i);
    let t2 = |i: nat| pow_mod(r, i);
    let t3 = |i: nat| cross_term(s, r, q, i);
    let t4 = |i: nat| cross_term(r, s, q, i);
    lemma_sum_over_union(rest, set_b, t1, q);
    lemma_sum_over_union(rest, set_b, t2, q);
    lemma_sum_over_union(rest, set_b, t3, q);
    lemma_sum_over_union(rest, set_b, t4, q);
    lemma_add_then_negate(sum_over(rest, t1, q), sum_over(set_b, t1, q));
    lemma_add_then_negate(sum_over(rest, t2, q), sum_over(set_b, t2, q));
    lemma_add_then_negate(sum_over(rest, t3, q), sum_over(set_b, t3, q));
    lemma_add_then_negate(sum_over(rest, t4, q), sum_over(set_b, t4, q));
    vstd::arithmetic::div_mod::lemma_mod_bound(sum_over(set_b, t1, q) as int, m);
    vstd::arithmetic::div_mod::lemma_mod_bound(sum_over(set_b, t2, q) as int, m);
    vstd::arithmetic::div_mod::lemma_mod_bound(sum_over(set_b, t3, q) as int, m);
    vstd::arithmetic::div_mod::lemma_mod_bound(sum_over(set_b, t4, q) as int, m);
    assert(reduced(y));
    assert(a == points_of(x) && b == points_of(y));
    assert(c == points_of(exponents_difference(x, y)));
    assert(exponents_difference(x, y) == exponents_of(rest, s, r, q));
}

/// Identity: adding the accumulator of the empty set changes nothing.
pub proof fn lemma_empty_is_neutral(x: AccValue, c: AccPoints, s: nat, r: nat, q: nat)
    requires
        x.wf(),
        is_sum(acc_of(Set::<u32>::empty(), s, r, q), x@, c),
    ensures
        c == x@,
{
    x.lemma_wf();
    let e = choose|e: AccExponents| reduced(e) && x@ == points_of(e);
    lemma_empty_exponents(s, r, q);
    let z = exponents_of(Set::<u32>::empty(), s, r, q);
    assert(acc_of(Set::<u32>::empty(), s, r, q) == points_of(z));
    assert(c == points_of(exponents_sum(z, e)));
    lemma_small_mod(e.s, modulus());
    lemma_small_mod(e.r, modulus());
    lemma_small_mod(e.s_r, modulus());
    lemma_small_mod(e.r_s, modulus());
    assert(exponents_sum(z, e) == e);
}

/// Identity: an accumulator less itself is the accumulator of the empty
/// set.
pub proof fn lemma_self_difference_is_empty(x: AccValue, c: AccPoints, s: nat, r: nat, q: nat)
    requires
        x.wf(),
        is_difference(x@, x@, c),
    ensures
        c == acc_of(Set::<u32>::empty(), s, r, q),
{
    x.lemma_wf();
    let e = choose|e: AccExponents| reduced(e) && x@ == points_of(e);
    lemma_empty_exponents(s, r, q);
    assert(c == points_of(exponents_difference(e, e)));
    lemma_add_then_negate(0, e.s);
    lemma_add_then_negate(0, e.r);
    lemma_add_then_negate(0, e.s_r);
    lemma_add_then_negate(0, e.r_s);
    lemma_small_mod(e.s, modulus());
    lemma_small_mod(e.r, modulus());
    lemma_small_mod(e.s_r, modulus());
    lemma_small_mod(e.r_s, modulus());
    lemma_small_mod(0, modulus());
    assert(exponents_difference(e, e) == (AccExponents { s: 0, r: 0, s_r: 0, r_s: 0 }));
}

/// Digests are determined by the four points.
pub proof fn lemma_digest_is_deterministic(a: AccValue, b: AccValue)
    requires
        a@ == b@,
    ensures
        a.digest_of() == b.digest_of(),
{
}

} // verus!
