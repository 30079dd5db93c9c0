//! The trapdoor of the accumulator and the public powers derived from it.

use crate::acc::curve::{g1_power, g2_power, G1Point, G2Point};
use crate::acc::field::{modulus, pow_mod, Scalar};
use vstd::prelude::*;

verus! {

/// Why an accumulator could not be set up.
#[derive(Debug, Clone, Copy, PartialEq, Eq, Structural)]
pub enum SetupError {
    /// The bound `q` is zero, or too large for this machine.
    InvalidBound,
    /// An element of the set is zero or above the bound.
    ElementOutOfRange,
}

/// The exponent `s^i * r^(q-i)` in the scalar field.
pub open spec fn cross_term(s: nat, r: nat, q: nat, i: nat) -> nat {
    (pow_mod(s, i) * pow_mod(r, (q - i) as nat)) % modulus()
}

/// The trapdoor: two scalars other than zero.
#[derive(Debug, Clone, Copy)]
pub struct AccSecretKey {
    s: Scalar,
    r: Scalar,
}

impl AccSecretKey {
    /// Both scalars are field elements other than zero.
    #[verifier::type_invariant]
    pub closed spec fn wf(self) -> bool {
        self.s.wf() && self.r.wf() && self.s@ != 0 && self.r@ != 0
    }

    /// The first trapdoor scalar.
    pub closed spec fn s(self) -> nat {
        self.s@
    }

    /// The second trapdoor scalar.
    pub closed spec fn r(self) -> nat {
        self.r@
    }

    /// What holds of the scalars of a key.
    pub proof fn lemma_wf(self)
        requires
            self.wf(),
        ensures
            0 < self.s() < modulus(),
            0 < self.r() < modulus(),
    {
        self.s.lemma_wf();
        self.r.lemma_wf();
    }

    /// The key made of `s` and `r`, unless one of them is zero.
    pub fn new(s: Scalar, r: Scalar) -> (key: Option<AccSecretKey>)
        ensures
            key is Some <==> s@ != 0 && r@ != 0,
            key matches Some(k) ==> k.wf() && k.s() == s@ && k.r() == r@,
    {
        if s.is_zero() || r.is_zero() {
            None
        } else {
            proof {
                use_type_invariant(s);
                use_type_invariant(r);
            }
            Some(AccSecretKey { s, r })
        }
    }

    /// `s^i` in the field.
    pub fn s_pow(&self, i: u64) -> (x: Scalar)
        ensures
            x.wf(),
            x@ == pow_mod(self.s(), i as nat),
    {
        self.s.pow(i)
    }

    /// `r^i` in the field.
    pub fn r_pow(&self, i: u64) -> (x: Scalar)
        ensures
            x.wf(),
            x@ == pow_mod(self.r(), i as nat),
    {
        self.r.pow(i)
    }
}

/// How many powers of each trapdoor scalar a key keeps at hand when nothing
/// else is asked for.
pub const POW_CACHE_WINDOW: usize = 64;

/// A trapdoor with the first powers of its two scalars kept at hand.
#[derive(Debug)]
pub struct AccSecretKeyWithPowCache {
    key: AccSecretKey,
    s_pows: Vec<Scalar>,
    r_pows: Vec<Scalar>,
}

impl AccSecretKeyWithPowCache {
    /// The tables hold the powers of the two scalars, from the power 0 on.
    #[verifier::type_invariant]
    pub closed spec fn wf(self) -> bool {
        &&& self.key.wf()
        &&& self.s_pows@.len() == self.r_pows@.len()
        &&& forall|i: int|
            0 <= i < self.s_pows@.len() ==> {
                &&& (#[trigger] self.s_pows@[i]).wf()
                &&& self.s_pows@[i]@ == pow_mod(self.key.s(), i as nat)
            }
        &&& forall|i: int|
            0 <= i < self.r_pows@.len() ==> {
                &&& (#[trigger] self.r_pows@[i]).wf()
                &&& self.r_pows@[i]@ == pow_mod(self.key.r(), i as nat)
            }
    }

    /// The first trapdoor scalar.
    pub closed spec fn s(self) -> nat {
        self.key.s()
    }

    /// The second trapdoor scalar.
    pub closed spec fn r(self) -> nat {
        self.key.r()
    }

    /// How many powers of each scalar are kept.
    pub closed spec fn window(self) -> nat {
        self.s_pows@.len()
    }

    /// What holds of the scalars of a key.
    pub proof fn lemma_wf(self)
        requires
            self.wf(),
        ensures
            0 < self.s() < modulus(),
            0 < self.r() < modulus(),
    {
        self.key.lemma_wf();
    }

    /// The key `key` with the powers below `window` of both scalars.
    pub fn new(key: AccSecretKey, window: usize) -> (cached: AccSecretKeyWithPowCache)
        ensures
            cached.wf(),
            cached.s() == key.s(),
            cached.r() == key.r(),
            cached.window() == window,
    {
        proof {
            use_type_invariant(key);
        }
        let mut s_pows: Vec<Scalar> = Vec::new();
        let mut r_pows: Vec<Scalar> = Vec::new();
        let mut i: usize = 0;
        while i < window
            invariant
                i <= window,
                key.wf(),
                s_pows@.len() == i,
                r_pows@.len() == i,
                forall|k: int|
                    0 <= k < i ==> (#[trigger] s_pows@[k]).wf() && s_pows@[k]@ == pow_mod(
                        key.s(),
                        k as nat,
                    ),
                forall|k: int|
                    0 <= k < i ==> (#[trigger] r_pows@[k]).wf() && r_pows@[k]@ == pow_mod(
                        key.r(),
                        k as nat,
                    ),
            decreases window - i,
        {
            s_pows.push(key.s_pow(i as u64));
            r_pows.push(key.r_pow(i as u64));
            i += 1;
        }
        AccSecretKeyWithPowCache { key, s_pows, r_pows }
    }

    /// `s^i` in the field: from the table where it holds the power.
    pub fn s_pow(&self, i: u64) -> (x: Scalar)
        ensures
            x.wf(),
            x@ == pow_mod(self.s(), i as nat),
    {
        proof {
            use_type_invariant(self);
        }
        if i < self.s_pows.len() as u64 {
            self.s_pows[i as usize]
        } else {
            self.key.s_pow(i)
        }
    }

    /// `r^i` in the field: from the table where it holds the power.
    pub fn r_pow(&self, i: u64) -> (x: Scalar)
        ensures
            x.wf(),
            x@ == pow_mod(self.r(), i as nat),
    {
        proof {
            use_type_invariant(self);
        }
        if i < self.r_pows.len() as u64 {
            self.r_pows[i as usize]
        } else {
            self.key.r_pow(i)
        }
    }

    /// `g^x`: the multiple of the generator of the first group by `x`.
    pub fn g_pow(&self, x: &Scalar) -> (p: G1Point)
        ensures
            p.wf(),
            p@ == g1_power(x@),
    {
        G1Point::generator_mul(x)
    }

    /// `h^x`: the multiple of the generator of the second group by `x`.
    pub fn h_pow(&self, x: &Scalar) -> (p: G2Point)
        ensures
            p.wf(),
            p@ == g2_power(x@),
    {
        G2Point::generator_mul(x)
    }
}

impl Clone for AccSecretKeyWithPowCache {
    fn clone(&self) -> (cached: AccSecretKeyWithPowCache)
        ensures
            cached.wf(),
            cached.s() == self.s(),
            cached.r() == self.r(),
            cached.window() == self.window(),
    {
        AccSecretKeyWithPowCache::new(self.key, self.s_pows.len())
    }
}

impl From<AccSecretKey> for AccSecretKeyWithPowCache {
    fn from(key: AccSecretKey) -> (cached: AccSecretKeyWithPowCache)
        ensures
            cached.wf(),
            cached.s() == key.s(),
            cached.r() == key.r(),
            cached.window() == POW_CACHE_WINDOW,
    {
        AccSecretKeyWithPowCache::new(key, POW_CACHE_WINDOW)
    }
}

impl vstd::std_specs::convert::FromSpecImpl<AccSecretKey> for AccSecretKeyWithPowCache {
    open spec fn obeys_from_spec() -> bool {
        false
    }

    open spec fn from_spec(key: AccSecretKey) -> AccSecretKeyWithPowCache {
        arbitrary()
    }
}

/// The public powers of a trapdoor, up to a bound `q`.
pub struct AccPublicKey {
    g_s: Vec<G1Point>,
    g_r: Vec<G1Point>,
    h_s_r: Vec<G2Point>,
    h_r_s: Vec<G2Point>,
    q: usize,
    s: Ghost<nat>,
    r: Ghost<nat>,
}

impl AccPublicKey {
    /// The four tables hold the powers of the trapdoor for `0..=q`.
    #[verifier::type_invariant]
    pub closed spec fn wf(self) -> bool {
        &&& 1 <= self.q < usize::MAX
        &&& self.g_s@.len() == self.q + 1
        &&& self.g_r@.len() == self.q + 1
        &&& self.h_s_r@.len() == self.q + 1
        &&& self.h_r_s@.len() == self.q + 1
        &&& forall|i: int|
            0 <= i <= self.q ==> {
                &&& (#[trigger] self.g_s@[i])@ == g1_power(pow_mod(self.s@, i as nat))
                &&& self.g_s@[i].wf()
            }
        &&& forall|i: int|
            0 <= i <= self.q ==> {
                &&& (#[trigger] self.g_r@[i])@ == g1_power(pow_mod(self.r@, i as nat))
                &&& self.g_r@[i].wf()
            }
        &&& forall|i: int|
            0 <= i <= self.q ==> {
                &&& (#[trigger] self.h_s_r@[i])@ == g2_power(
                    cross_term(self.s@, self.r@, self.q as nat, i as nat),
                )
                &&& self.h_s_r@[i].wf()
            }
        &&& forall|i: int|
            0 <= i <= self.q ==> {
                &&& (#[trigger] self.h_r_s@[i])@ == g2_power(
                    cross_term(self.r@, self.s@, self.q as nat, i as nat),
                )
                &&& self.h_r_s@[i].wf()
            }
    }

    /// The bound: the largest element that can be accumulated.
    pub closed spec fn bound(self) -> nat {
        self.q as nat
    }

    /// The first scalar of the trapdoor that the key was made from.
    pub closed spec fn s(self) -> nat {
        self.s@
    }

    /// The second scalar of the trapdoor that the key was made from.
    pub closed spec fn r(self) -> nat {
        self.r@
    }

    /// Derives the public powers of `sk` up to `q`.
    pub fn gen_key(sk: &AccSecretKeyWithPowCache, q: u64) -> (res: Result<
        AccPublicKey,
        SetupError,
    >)
        ensures
            res is Err <==> q == 0 || q >= usize::MAX,
            res matches Err(e) ==> e == SetupError::InvalidBound,
            res matches Ok(pk) ==> pk.wf() && pk.bound() == q && pk.s() == sk.s() && pk.r()
                == sk.r(),
    {
        if q == 0 || q >= usize::MAX as u64 {
            return Err(SetupError::InvalidBound);
        }
        let mut g_s: Vec<G1Point> = Vec::new();
        let mut g_r: Vec<G1Point> = Vec::new();
        let mut h_s_r: Vec<G2Point> = Vec::new();
        let mut h_r_s: Vec<G2Point> = Vec::new();
        let mut i: u64 = 0;
        while i <= q
            invariant
                1 <= q < usize::MAX,
                i <= q + 1,
                g_s@.len() == i,
                g_r@.len() == i,
                h_s_r@.len() == i,
                h_r_s@.len() == i,
                forall|k: int|
                    0 <= k < i ==> (#[trigger] g_s@[k])@ == g1_power(pow_mod(sk.s(), k as nat))
                        && g_s@[k].wf(),
                forall|k: int|
                    0 <= k < i ==> (#[trigger] g_r@[k])@ == g1_power(pow_mod(sk.r(), k as nat))
                        && g_r@[k].wf(),
                forall|k: int|
                    0 <= k < i ==> (#[trigger] h_s_r@[k])@ == g2_power(
                        cross_term(sk.s(), sk.r(), q as nat, k as nat),
                    ) && h_s_r@[k].wf(),
                forall|k: int|
                    0 <= k < i ==> (#[trigger] h_r_s@[k])@ == g2_power(
                        cross_term(sk.r(), sk.s(), q as nat, k as nat),
                    ) && h_r_s@[k].wf(),
            decreases q + 1 - i,
        {
            let s_i = sk.s_pow(i);
            let r_i = sk.r_pow(i);
            let s_q_i = sk.s_pow(q - i);
            let r_q_i = sk.r_pow(q - i);
            g_s.push(sk.g_pow(&s_i));
            g_r.push(sk.g_pow(&r_i));
            h_s_r.push(sk.h_pow(&s_i.mul(&r_q_i)));
            h_r_s.push(sk.h_pow(&r_i.mul(&s_q_i)));
            i += 1;
        }
        Ok(
            AccPublicKey {
                g_s,
                g_r,
                h_s_r,
                h_r_s,
                q: q as usize,
                s: Ghost(sk.s()),
                r: Ghost(sk.r()),
            },
        )
    }

    /// The bound that the key was made for.
    pub fn q(&self) -> (q: u64)
        ensures
            q == self.bound(),
            q >= 1,
    {
        proof {
            use_type_invariant(self);
        }
        self.q as u64
    }

    /// `g^(s^i)`.
    pub fn get_g_s_i(&self, i: u64) -> (p: G1Point)
        requires
            i <= self.bound(),
        ensures
            p.wf(),
            p@ == g1_power(pow_mod(self.s(), i as nat)),
    {
        proof {
            use_type_invariant(self);
        }
        self.g_s[i as usize]
    }

    /// `g^(r^i)`.
    pub fn get_g_r_i(&self, i: u64) -> (p: G1Point)
        requires
            i <= self.bound(),
        ensures
            p.wf(),
            p@ == g1_power(pow_mod(self.r(), i as nat)),
    {
        proof {
            use_type_invariant(self);
        }
        self.g_r[i as usize]
    }

    /// `h^(s^i * r^(q-i))`.
    pub fn get_h_s_r_i(&self, i: u64) -> (p: G2Point)
        requires
            i <= self.bound(),
        ensures
            p.wf(),
            p@ == g2_power(cross_term(self.s(), self.r(), self.bound(), i as nat)),
    {
        proof {
            use_type_invariant(self);
        }
        self.h_s_r[i as usize]
    }

    /// `h^(r^i * s^(q-i))`.
    pub fn get_h_r_s_i(&self, i: u64) -> (p: G2Point)
        requires
            i <= self.bound(),
        ensures
            p.wf(),
            p@ == g2_power(cross_term(self.r(), self.s(), self.bound(), i as nat)),
    {
        proof {
            use_type_invariant(self);
        }
        self.h_r_s[i as usize]
    }
}

} // verus!
