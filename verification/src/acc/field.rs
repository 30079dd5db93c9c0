//! The scalar field of the accumulator's groups: the integers modulo the
//! prime order of the BN254 groups.

use ark_ff::{Field, PrimeField};
use vstd::arithmetic::power::pow;
use vstd::prelude::*;

verus! {

/// The order of the groups, a prime.
pub open spec fn modulus() -> nat {
    21888242871839275222246405745257275088548364400416034343698204186575808495617nat
}

/// The number that four 64-bit limbs stand for, least significant limb first.
pub open spec fn limbs_value(limbs: Seq<u64>) -> nat
    recommends
        limbs.len() == 4,
{
    (limbs[0] + limbs[1] * 0x1_0000_0000_0000_0000 + limbs[2]
        * 0x1_0000_0000_0000_0000_0000_0000_0000_0000 + limbs[3]
        * 0x1_0000_0000_0000_0000_0000_0000_0000_0000_0000_0000_0000_0000) as nat
}

/// `base` to the power `exp`, modulo the group order.
pub open spec fn pow_mod(base: nat, exp: nat) -> nat {
    (pow(base as int, exp) % (modulus() as int)) as nat
}

/// An element of the scalar field, held as the limbs of its least
/// non-negative representative.
#[derive(Debug, Clone, Copy)]
pub struct Scalar {
    limbs: [u64; 4],
}

impl View for Scalar {
    type V = nat;

    closed spec fn view(&self) -> nat {
        limbs_value(self.limbs@)
    }
}

/// The limbs of the group order.
fn modulus_limbs() -> (m: [u64; 4])
    ensures
        limbs_value(m@) == modulus(),
{
    [4891460686036598785u64, 2896914383306846353u64, 13281191951274694749u64, 3486998266802970665u64]
}

/// Adds in the field, with `ark_bn254::Fr`'s `+` on the two elements built by
/// `PrimeField::from_repr`; the result is read back by `into_repr`. The sum
/// of two field elements is their sum as integers, reduced by the modulus.
#[verifier::external_body]
fn fr_add(a: &Scalar, b: &Scalar) -> (r: Scalar)
    requires
        a.wf(),
        b.wf(),
    ensures
        r.wf(),
        r@ == (a@ + b@) % modulus(),
{
    let x = ark_bn254::Fr::from_repr(ark_ff::BigInteger256(a.limbs)).unwrap();
    let y = ark_bn254::Fr::from_repr(ark_ff::BigInteger256(b.limbs)).unwrap();
    Scalar { limbs: (x + y).into_repr().0 }
}

/// Multiplies in the field, with `ark_bn254::Fr`'s `*`. The product of two
/// field elements is their product as integers, reduced by the modulus.
#[verifier::external_body]
fn fr_mul(a: &Scalar, b: &Scalar) -> (r: Scalar)
    requires
        a.wf(),
        b.wf(),
    ensures
        r.wf(),
        r@ == (a@ * b@) % modulus(),
{
    let x = ark_bn254::Fr::from_repr(ark_ff::BigInteger256(a.limbs)).unwrap();
    let y = ark_bn254::Fr::from_repr(ark_ff::BigInteger256(b.limbs)).unwrap();
    Scalar { limbs: (x * y).into_repr().0 }
}

/// Raises to a power in the field, with `ark_ff::Field::pow` on the one-limb
/// exponent `[exp]`. The result is the integer power, reduced by the modulus.
#[verifier::external_body]
fn fr_pow(base: &Scalar, exp: u64) -> (r: Scalar)
    requires
        base.wf(),
    ensures
        r.wf(),
        r@ == pow_mod(base@, exp as nat),
{
    let x = ark_bn254::Fr::from_repr(ark_ff::BigInteger256(base.limbs)).unwrap();
    Scalar { limbs: x.pow([exp]).into_repr().0 }
}

impl Scalar {
    /// A scalar stands for a number below the modulus.
    #[verifier::type_invariant]
    pub closed spec fn wf(self) -> bool {
        limbs_value(self.limbs@) < modulus()
    }

    /// The field element that `x` stands for.
    pub fn from_u64(x: u64) -> (r: Scalar)
        ensures
            r.wf(),
            r@ == x,
    {
        Scalar { limbs: [x, 0, 0, 0] }
    }

    /// The field element with the given limbs, least significant first, if
    /// they stand for a number below the modulus.
    pub fn from_limbs(limbs: [u64; 4]) -> (r: Option<Scalar>)
        ensures
            r is Some <==> limbs_value(limbs@) < modulus(),
            r matches Some(s) ==> s.wf() && s@ == limbs_value(limbs@),
    {
        let m = modulus_limbs();
        let below = if limbs[3] != m[3] {
            limbs[3] < m[3]
        } else if limbs[2] != m[2] {
            limbs[2] < m[2]
        } else if limbs[1] != m[1] {
            limbs[1] < m[1]
        } else {
            limbs[0] < m[0]
        };
        if below {
            Some(Scalar { limbs })
        } else {
            None
        }
    }

    /// A well-formed scalar stands for a number below the modulus.
    pub proof fn lemma_wf(self)
        requires
            self.wf(),
        ensures
            self@ < modulus(),
    {
    }

    /// The limbs of the element, least significant first.
    pub fn to_limbs(&self) -> (limbs: [u64; 4])
        ensures
            limbs_value(limbs@) == self@,
    {
        self.limbs
    }

    pub fn is_zero(&self) -> (z: bool)
        ensures
            z == (self@ == 0),
    {
        self.limbs[0] == 0 && self.limbs[1] == 0 && self.limbs[2] == 0 && self.limbs[3] == 0
    }

    /// The sum in the field.
    pub fn add(&self, other: &Scalar) -> (r: Scalar)
        ensures
            r.wf(),
            r@ == (self@ + other@) % modulus(),
    {
        proof {
            use_type_invariant(self);
            use_type_invariant(other);
        }
        fr_add(self, other)
    }

    /// The product in the field.
    pub fn mul(&self, other: &Scalar) -> (r: Scalar)
        ensures
            r.wf(),
            r@ == (self@ * other@) % modulus(),
    {
        proof {
            use_type_invariant(self);
            use_type_invariant(other);
        }
        fr_mul(self, other)
    }

    /// The power in the field.
    pub fn pow(&self, exp: u64) -> (r: Scalar)
        ensures
            r.wf(),
            r@ == pow_mod(self@, exp as nat),
    {
        proof {
            use_type_invariant(self);
        }
        fr_pow(self, exp)
    }
}

} // verus!
