//! The two source groups of the pairing, as points of BN254 in the encoding
//! of the curve library.

use crate::acc::field::{modulus, Scalar};
use ark_ec::{AffineCurve, ProjectiveCurve};
use ark_ff::{FromBytes, ToBytes};
use vstd::prelude::*;

verus! {

/// Whether two byte strings are equal.
pub fn same_bytes(a: &[u8], b: &[u8]) -> (r: bool)
    ensures
        r == (a@ == b@),
{
    if a.len() != b.len() {
        return false;
    }
    let mut i: usize = 0;
    while i < a.len()
        invariant
            i <= a.len(),
            a.len() == b.len(),
            forall|j: int| 0 <= j < i ==> a@[j] == b@[j],
        decreases a.len() - i,
    {
        if a[i] != b[i] {
            return false;
        }
        i += 1;
    }
    proof {
        assert(a@ =~= b@);
    }
    true
}

/// The bytes of the `x`-th multiple of the fixed generator of G1, in the
/// encoding that `ark_ff::ToBytes` gives an affine point: its coordinates as
/// little-endian integers, then one byte that is 1 for the point at infinity.
pub uninterp spec fn g1_power(x: nat) -> Seq<u8>;

/// Whether `bytes` pass the reading and the membership tests of G1.
pub uninterp spec fn g1_accepts(bytes: Seq<u8>) -> bool;

/// A point of G1, held as its 65 encoded bytes.
#[derive(Debug, Clone, Copy)]
pub struct G1Point {
    bytes: [u8; 65],
}

impl View for G1Point {
    type V = Seq<u8>;

    closed spec fn view(&self) -> Seq<u8> {
        self.bytes@
    }
}

/// Multiplies the generator: `AffineCurve::prime_subgroup_generator`, then
/// `AffineCurve::mul` by the scalar's integer and `into_affine`, written out
/// by `ToBytes::write`. The result depends on the scalar alone.
#[verifier::external_body]
fn g1_generator_mul(k: &Scalar) -> (p: G1Point)
    requires
        k.wf(),
    ensures
        p@ == g1_power(k@),
{
    let g = <ark_bn254::G1Affine as AffineCurve>::prime_subgroup_generator();
    let q = g.mul(ark_ff::BigInteger256(k.to_limbs())).into_affine();
    let mut bytes = [0u8; 65];
    q.write(&mut bytes[..]).unwrap();
    G1Point { bytes }
}

/// Adds two points with `+` of `ark_bn254::G1Affine`, read by
/// `FromBytes::read` and written by `ToBytes::write`. The group has the order
/// of the scalar field, so multiples of the generator add by adding their
/// factors modulo that order.
#[verifier::external_body]
fn g1_add(a: &G1Point, b: &G1Point) -> (p: G1Point)
    requires
        a.wf(),
        b.wf(),
    ensures
        forall|x: nat, y: nat|
            #![trigger g1_power(x), g1_power(y)]
            x < modulus() && y < modulus() && a@ == g1_power(x) && b@ == g1_power(y) ==> p@
                == g1_power((x + y) % modulus()),
{
    let x = ark_bn254::G1Affine::read(&a.bytes[..]).unwrap();
    let y = ark_bn254::G1Affine::read(&b.bytes[..]).unwrap();
    let mut bytes = [0u8; 65];
    (x + y).write(&mut bytes[..]).unwrap();
    G1Point { bytes }
}

/// Negates a point with `-` of `ark_bn254::G1Affine`. The inverse of the
/// `x`-th multiple of the generator is its multiple by the order less `x`.
#[verifier::external_body]
fn g1_neg(a: &G1Point) -> (p: G1Point)
    requires
        a.wf(),
    ensures
        forall|x: nat|
            #![trigger g1_power(x)]
            x < modulus() && a@ == g1_power(x) ==> p@ == g1_power(
                ((modulus() - x) % (modulus() as int)) as nat,
            ),
{
    let x = ark_bn254::G1Affine::read(&a.bytes[..]).unwrap();
    let mut bytes = [0u8; 65];
    (-x).write(&mut bytes[..]).unwrap();
    G1Point { bytes }
}

/// Reads a point with `FromBytes::read` and tests it with `is_on_curve` and
/// `is_in_correct_subgroup_assuming_on_curve`. The group of such points is
/// cyclic of prime order: a finite point that passes is a multiple of the
/// generator, and its coordinates are written back as they were read.
#[verifier::external_body]
fn g1_check(bytes: &[u8; 65]) -> (ok: bool)
    ensures
        ok == g1_accepts(bytes@),
        ok && bytes@[65 - 1] == 0 ==> exists|x: nat| x < modulus() && bytes@ == g1_power(x),
{
    match ark_bn254::G1Affine::read(&bytes[..]) {
        Ok(q) => q.is_on_curve() && q.is_in_correct_subgroup_assuming_on_curve(),
        Err(_) => false,
    }
}

impl G1Point {
    /// A point is some multiple of the generator.
    #[verifier::type_invariant]
    pub closed spec fn wf(self) -> bool {
        exists|x: nat| x < modulus() && self.bytes@ == g1_power(x)
    }

    /// What holds of the bytes of a point.
    pub proof fn lemma_wf(self)
        requires
            self.wf(),
        ensures
            exists|x: nat| x < modulus() && self@ == g1_power(x),
    {
    }

    /// The multiple of the generator by `k`.
    pub fn generator_mul(k: &Scalar) -> (p: G1Point)
        ensures
            p.wf(),
            p@ == g1_power(k@),
    {
        proof {
            use_type_invariant(k);
            k.lemma_wf();
        }
        let p = g1_generator_mul(k);
        proof {
            assert(k@ < modulus() && p.bytes@ == g1_power(k@));
        }
        p
    }

    /// The neutral element: the point at infinity.
    pub fn zero() -> (p: G1Point)
        ensures
            p.wf(),
            p@ == g1_power(0),
    {
        G1Point::generator_mul(&Scalar::from_u64(0))
    }

    /// The point that `bytes` encode, if they encode one in canonical form.
    pub fn from_bytes(bytes: &[u8; 65]) -> (p: Option<G1Point>)
        ensures
            p matches Some(q) ==> q.wf() && q@ == bytes@,
            p is Some <==> (if bytes@[65 - 1] == 0 {
                g1_accepts(bytes@)
            } else {
                bytes@ == g1_power(0)
            }),
    {
        if bytes[65 - 1] == 0 {
            if g1_check(bytes) {
                Some(G1Point { bytes: *bytes })
            } else {
                None
            }
        } else {
            let zero = G1Point::zero();
            if same_bytes(bytes.as_slice(), zero.bytes.as_slice()) {
                Some(G1Point { bytes: *bytes })
            } else {
                None
            }
        }
    }

    /// The encoded bytes of the point.
    pub fn as_bytes(&self) -> (bytes: &[u8; 65])
        ensures
            bytes@ == self@,
    {
        &self.bytes
    }

    /// The sum of two points.
    pub fn add(&self, other: &G1Point) -> (p: G1Point)
        ensures
            p.wf(),
            forall|x: nat, y: nat|
                #![trigger g1_power(x), g1_power(y)]
                x < modulus() && y < modulus() && self@ == g1_power(x) && other@ == g1_power(y)
                    ==> p@ == g1_power((x + y) % modulus()),
    {
        proof {
            use_type_invariant(self);
            use_type_invariant(other);
        }
        let p = g1_add(self, other);
        proof {
            let x = choose|x: nat| x < modulus() && self.bytes@ == g1_power(x);
            let y = choose|y: nat| y < modulus() && other.bytes@ == g1_power(y);
            assert(p.bytes@ == g1_power((x + y) % modulus()));
        }
        p
    }

    /// The inverse of a point.
    pub fn neg(&self) -> (p: G1Point)
        ensures
            p.wf(),
            forall|x: nat|
                #![trigger g1_power(x)]
                x < modulus() && self@ == g1_power(x) ==> p@ == g1_power(
                    ((modulus() - x) % (modulus() as int)) as nat,
                ),
    {
        proof {
            use_type_invariant(self);
        }
        let p = g1_neg(self);
        proof {
            let x = choose|x: nat| x < modulus() && self.bytes@ == g1_power(x);
            assert(p.bytes@ == g1_power(((modulus() - x) % (modulus() as int)) as nat));
        }
        p
    }

    /// Whether two points are the same point.
    pub fn same(&self, other: &G1Point) -> (r: bool)
        ensures
            r == (self@ == other@),
    {
        same_bytes(self.bytes.as_slice(), other.bytes.as_slice())
    }
}

/// The bytes of the `x`-th multiple of the fixed generator of G2, in the
/// encoding that `ark_ff::ToBytes` gives an affine point: its coordinates as
/// little-endian integers, then one byte that is 1 for the point at infinity.
pub uninterp spec fn g2_power(x: nat) -> Seq<u8>;

/// Whether `bytes` pass the reading and the membership tests of G2.
pub uninterp spec fn g2_accepts(bytes: Seq<u8>) -> bool;

/// A point of G2, held as its 129 encoded bytes.
#[derive(Debug, Clone, Copy)]
pub struct G2Point {
    bytes: [u8; 129],
}

impl View for G2Point {
    type V = Seq<u8>;

    closed spec fn view(&self) -> Seq<u8> {
        self.bytes@
    }
}

/// Multiplies the generator: `AffineCurve::prime_subgroup_generator`, then
/// `AffineCurve::mul` by the scalar's integer and `into_affine`, written out
/// by `ToBytes::write`. The result depends on the scalar alone.
#[verifier::external_body]
fn g2_generator_mul(k: &Scalar) -> (p: G2Point)
    requires
        k.wf(),
    ensures
        p@ == g2_power(k@),
{
    let g = <ark_bn254::G2Affine as AffineCurve>::prime_subgroup_generator();
    let q = g.mul(ark_ff::BigInteger256(k.to_limbs())).into_affine();
    let mut bytes = [0u8; 129];
    q.write(&mut bytes[..]).unwrap();
    G2Point { bytes }
}

/// Adds two points with `+` of `ark_bn254::G2Affine`, read by
/// `FromBytes::read` and written by `ToBytes::write`. The group has the order
/// of the scalar field, so multiples of the generator add by adding their
/// factors modulo that order.
#[verifier::external_body]
fn g2_add(a: &G2Point, b: &G2Point) -> (p: G2Point)
    requires
        a.wf(),
        b.wf(),
    ensures
        forall|x: nat, y: nat|
            #![trigger g2_power(x), g2_power(y)]
            x < modulus() && y < modulus() && a@ == g2_power(x) && b@ == g2_power(y) ==> p@
                == g2_power((x + y) % modulus()),
{
    let x = ark_bn254::G2Affine::read(&a.bytes[..]).unwrap();
    let y = ark_bn254::G2Affine::read(&b.bytes[..]).unwrap();
    let mut bytes = [0u8; 129];
    (x + y).write(&mut bytes[..]).unwrap();
    G2Point { bytes }
}

/// Negates a point with `-` of `ark_bn254::G2Affine`. The inverse of the
/// `x`-th multiple of the generator is its multiple by the order less `x`.
#[verifier::external_body]
fn g2_neg(a: &G2Point) -> (p: G2Point)
    requires
        a.wf(),
    ensures
        forall|x: nat|
            #![trigger g2_power(x)]
            x < modulus() && a@ == g2_power(x) ==> p@ == g2_power(
                ((modulus() - x) % (modulus() as int)) as nat,
            ),
{
    let x = ark_bn254::G2Affine::read(&a.bytes[..]).unwrap();
    let mut bytes = [0u8; 129];
    (-x).write(&mut bytes[..]).unwrap();
    G2Point { bytes }
}

/// Reads a point with `FromBytes::read` and tests it with `is_on_curve` and
/// `is_in_correct_subgroup_assuming_on_curve`. The group of such points is
/// cyclic of prime order: a finite point that passes is a multiple of the
/// generator, and its coordinates are written back as they were read.
#[verifier::external_body]
fn g2_check(bytes: &[u8; 129]) -> (ok: bool)
    ensures
        ok == g2_accepts(bytes@),
        ok && bytes@[129 - 1] == 0 ==> exists|x: nat| x < modulus() && bytes@ == g2_power(x),
{
    match ark_bn254::G2Affine::read(&bytes[..]) {
        Ok(q) => q.is_on_curve() && q.is_in_correct_subgroup_assuming_on_curve(),
        Err(_) => false,
    }
}

impl G2Point {
    /// A point is some multiple of the generator.
    #[verifier::type_invariant]
    pub closed spec fn wf(self) -> bool {
        exists|x: nat| x < modulus() && self.bytes@ == g2_power(x)
    }

    /// What holds of the bytes of a point.
    pub proof fn lemma_wf(self)
        requires
            self.wf(),
        ensures
            exists|x: nat| x < modulus() && self@ == g2_power(x),
    {
    }

    /// The multiple of the generator by `k`.
    pub fn generator_mul(k: &Scalar) -> (p: G2Point)
        ensures
            p.wf(),
            p@ == g2_power(k@),
    {
        proof {
            use_type_invariant(k);
            k.lemma_wf();
        }
        let p = g2_generator_mul(k);
        proof {
            assert(k@ < modulus() && p.bytes@ == g2_power(k@));
        }
        p
    }

    /// The neutral element: the point at infinity.
    pub fn zero() -> (p: G2Point)
        ensures
            p.wf(),
            p@ == g2_power(0),
    {
        G2Point::generator_mul(&Scalar::from_u64(0))
    }

    /// The point that `bytes` encode, if they encode one in canonical form.
    pub fn from_bytes(bytes: &[u8; 129]) -> (p: Option<G2Point>)
        ensures
            p matches Some(q) ==> q.wf() && q@ == bytes@,
            p is Some <==> (if bytes@[129 - 1] == 0 {
                g2_accepts(bytes@)
            } else {
                bytes@ == g2_power(0)
            }),
    {
        if bytes[129 - 1] == 0 {
            if g2_check(bytes) {
                Some(G2Point { bytes: *bytes })
            } else {
                None
            }
        } else {
            let zero = G2Point::zero();
            if same_bytes(bytes.as_slice(), zero.bytes.as_slice()) {
                Some(G2Point { bytes: *bytes })
            } else {
                None
            }
        }
    }

    /// The encoded bytes of the point.
    pub fn as_bytes(&self) -> (bytes: &[u8; 129])
        ensures
            bytes@ == self@,
    {
        &self.bytes
    }

    /// The sum of two points.
    pub fn add(&self, other: &G2Point) -> (p: G2Point)
        ensures
            p.wf(),
            forall|x: nat, y: nat|
                #![trigger g2_power(x), g2_power(y)]
                x < modulus() && y < modulus() && self@ == g2_power(x) && other@ == g2_power(y)
                    ==> p@ == g2_power((x + y) % modulus()),
    {
        proof {
            use_type_invariant(self);
            use_type_invariant(other);
        }
        let p = g2_add(self, other);
        proof {
            let x = choose|x: nat| x < modulus() && self.bytes@ == g2_power(x);
            let y = choose|y: nat| y < modulus() && other.bytes@ == g2_power(y);
            assert(p.bytes@ == g2_power((x + y) % modulus()));
        }
        p
    }

    /// The inverse of a point.
    pub fn neg(&self) -> (p: G2Point)
        ensures
            p.wf(),
            forall|x: nat|
                #![trigger g2_power(x)]
                x < modulus() && self@ == g2_power(x) ==> p@ == g2_power(
                    ((modulus() - x) % (modulus() as int)) as nat,
                ),
    {
        proof {
            use_type_invariant(self);
        }
        let p = g2_neg(self);
        proof {
            let x = choose|x: nat| x < modulus() && self.bytes@ == g2_power(x);
            assert(p.bytes@ == g2_power(((modulus() - x) % (modulus() as int)) as nat));
        }
        p
    }

    /// Whether two points are the same point.
    pub fn same(&self, other: &G2Point) -> (r: bool)
        ensures
            r == (self@ == other@),
    {
        same_bytes(self.bytes.as_slice(), other.bytes.as_slice())
    }
}

} // verus!
