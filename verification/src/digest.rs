//! Fixed-width digests and the hash they are made with.

use vstd::prelude::*;

verus! {

/// Number of bytes in a [`Digest`].
pub const DIGEST_LEN: usize = 32;

/// The 64-byte BLAKE2b-512 hash of `data`.
pub uninterp spec fn blake2b_512(data: Seq<u8>) -> Seq<u8>;

/// The hash used throughout: the first 32 bytes of BLAKE2b-512.
pub open spec fn hash_bytes(data: Seq<u8>) -> Seq<u8> {
    blake2b_512(data).subrange(0, 32)
}

/// Two different byte strings with the same digest.
pub open spec fn is_collision(a: Seq<u8>, b: Seq<u8>) -> bool {
    a != b && Digest::hash_of(a) == Digest::hash_of(b)
}

/// Little-endian bytes of a `u32`.
pub open spec fn u32_le_bytes(x: u32) -> Seq<u8> {
    seq![
        (x % 256) as u8,
        (x / 256 % 256) as u8,
        (x / 65536 % 256) as u8,
        (x / 16777216) as u8,
    ]
}

/// Big-endian bytes of a `u16`.
pub open spec fn u16_be_bytes(x: u16) -> Seq<u8> {
    seq![(x / 256) as u8, (x % 256) as u8]
}

/// A 32-byte digest.
#[derive(Debug, Copy, Clone, Eq, Hash)]
pub struct Digest(pub [u8; 32]);

impl View for Digest {
    type V = Seq<u8>;

    open spec fn view(&self) -> Seq<u8> {
        self.0@
    }
}

/// Calls `blake2::Blake2b512::digest` on `data`. The result is the
/// BLAKE2b-512 hash of the input, which is a function of the input bytes
/// alone and is 64 bytes long.
#[verifier::external_body]
fn blake2b_512_of(data: &[u8]) -> (out: [u8; 64])
    ensures
        out@ == blake2b_512(data@),
{
    <blake2::Blake2b512 as blake2::Digest>::digest(data).into()
}

impl Digest {
    /// The all-zero digest.
    pub open spec fn zero() -> Digest {
        Digest::of_seq(Seq::new(32, |i: int| 0u8))
    }

    /// The digest whose bytes are the first 32 bytes of `bytes`.
    pub open spec fn of_seq(bytes: Seq<u8>) -> Digest
        recommends
            bytes.len() >= 32,
    {
        Digest(
            [
                bytes[0], bytes[1], bytes[2], bytes[3], bytes[4], bytes[5], bytes[6], bytes[7],
                bytes[8], bytes[9], bytes[10], bytes[11], bytes[12], bytes[13], bytes[14],
                bytes[15], bytes[16], bytes[17], bytes[18], bytes[19], bytes[20], bytes[21],
                bytes[22], bytes[23], bytes[24], bytes[25], bytes[26], bytes[27], bytes[28],
                bytes[29], bytes[30], bytes[31],
            ],
        )
    }

    /// The digest of a byte string: its truncated BLAKE2b-512 hash.
    pub open spec fn hash_of(data: Seq<u8>) -> Digest {
        Digest::of_seq(hash_bytes(data))
    }

    /// The bytes of the digest.
    pub fn as_bytes(&self) -> (b: &[u8; 32])
        ensures
            b@ == self@,
    {
        &self.0
    }

    /// The digest whose bytes are the 32 bytes of `bytes` from `at` on.
    pub fn from_slice(bytes: &[u8], at: usize) -> (d: Digest)
        requires
            at + 32 <= bytes@.len(),
        ensures
            d@ == bytes@.subrange(at as int, at + 32),
    {
        let mut out = [0u8; 32];
        let mut i: usize = 0;
        while i < 32
            invariant
                i <= 32,
                at + 32 <= bytes.len(),
                forall|j: int| 0 <= j < i ==> out@[j] == bytes@[at + j],
            decreases 32 - i,
        {
            out[i] = bytes[at + i];
            i += 1;
        }
        let d = Digest(out);
        proof {
            assert(d.0@ =~= bytes@.subrange(at as int, at + 32));
        }
        d
    }

    /// Hashes `data`.
    pub fn hash(data: &[u8]) -> (d: Digest)
        ensures
            d == Digest::hash_of(data@),
            d@ == hash_bytes(data@),
    {
        let full = blake2b_512_of(data);
        let mut out = [0u8; 32];
        let mut i: usize = 0;
        while i < 32
            invariant
                i <= 32,
                forall|j: int| 0 <= j < i ==> out@[j] == full@[j],
            decreases 32 - i,
        {
            out[i] = full[i];
            i += 1;
        }
        let d = Digest(out);
        proof {
            assert(d.0@ =~= hash_bytes(data@));
            assert(d.0 =~= Digest::hash_of(data@).0);
        }
        d
    }
}

impl PartialEq for Digest {
    /// Compares all 32 bytes, whatever they hold.
    fn eq(&self, other: &Digest) -> (r: bool) {
        let mut diff: u8 = 0;
        let mut i: usize = 0;
        while i < 32
            invariant
                i <= 32,
                diff == 0 <==> (forall|j: int| 0 <= j < i ==> self.0@[j] == other.0@[j]),
            decreases 32 - i,
        {
            let a: u8 = self.0[i];
            let b: u8 = other.0[i];
            let next: u8 = diff | (a ^ b);
            assert(next == 0 <==> (diff == 0 && a == b)) by (bit_vector)
                requires
                    next == diff | (a ^ b),
            ;
            diff = next;
            i += 1;
        }
        proof {
            if diff == 0 {
                assert(self.0 =~= other.0);
            }
        }
        diff == 0
    }
}

impl vstd::std_specs::cmp::PartialEqSpecImpl for Digest {
    open spec fn obeys_eq_spec() -> bool {
        true
    }

    open spec fn eq_spec(&self, other: &Digest) -> bool {
        *self == *other
    }
}

impl Default for Digest {
    fn default() -> (d: Digest)
        ensures
            d == Digest::zero(),
    {
        let d = Digest([0u8; 32]);
        proof {
            assert(d.0 =~= Digest::zero().0);
        }
        d
    }
}

impl From<[u8; 32]> for Digest {
    fn from(bytes: [u8; 32]) -> (d: Digest) {
        Digest(bytes)
    }
}

impl vstd::std_specs::convert::FromSpecImpl<[u8; 32]> for Digest {
    open spec fn obeys_from_spec() -> bool {
        true
    }

    open spec fn from_spec(bytes: [u8; 32]) -> Digest {
        Digest(bytes)
    }
}

/// A running hash: the bytes fed to it so far.
pub struct HashState {
    input: Vec<u8>,
}

impl View for HashState {
    type V = Seq<u8>;

    closed spec fn view(&self) -> Seq<u8> {
        self.input@
    }
}

/// A fresh hash state, with nothing fed to it.
pub fn blake2() -> (state: HashState)
    ensures
        state@ == Seq::<u8>::empty(),
{
    HashState { input: Vec::new() }
}

impl HashState {
    /// Feeds `data` to the hash, after what was fed before.
    pub fn update(&mut self, data: &[u8])
        ensures
            final(self)@ == old(self)@ + data@,
    {
        self.input.extend_from_slice(data);
    }

    /// The digest of everything fed so far.
    pub fn finalize(&self) -> (d: Digest)
        ensures
            d == Digest::hash_of(self@),
    {
        Digest::hash(self.input.as_slice())
    }
}

/// A value that has a digest.
pub trait Digestible {
    /// The digest of the value.
    spec fn digest_of(&self) -> Digest;

    /// Computes the digest of the value.
    fn to_digest(&self) -> (d: Digest)
        ensures
            d == self.digest_of(),
    ;
}

impl Digestible for Digest {
    open spec fn digest_of(&self) -> Digest {
        *self
    }

    fn to_digest(&self) -> (d: Digest) {
        *self
    }
}

impl Digestible for u32 {
    open spec fn digest_of(&self) -> Digest {
        Digest::hash_of(u32_le_bytes(*self))
    }

    fn to_digest(&self) -> (d: Digest) {
        let bytes = u32_to_le_bytes(*self);
        Digest::hash(&bytes)
    }
}

impl Digestible for Vec<u8> {
    open spec fn digest_of(&self) -> Digest {
        Digest::hash_of(self@)
    }

    fn to_digest(&self) -> (d: Digest) {
        Digest::hash(self.as_slice())
    }
}

/// Little-endian bytes of `x`.
pub fn u32_to_le_bytes(x: u32) -> (bytes: [u8; 4])
    ensures
        bytes@ == u32_le_bytes(x),
{
    let bytes = [
        (x % 256) as u8,
        (x / 256 % 256) as u8,
        (x / 65536 % 256) as u8,
        (x / 16777216) as u8,
    ];
    proof {
        assert(bytes@ =~= u32_le_bytes(x));
    }
    bytes
}

/// The number whose little-endian bytes are the four bytes of `bytes` from
/// `at` on.
pub fn u32_from_le_bytes(bytes: &[u8], at: usize) -> (x: u32)
    requires
        at + 4 <= bytes@.len(),
    ensures
        u32_le_bytes(x) == bytes@.subrange(at as int, at + 4),
{
    let b0: u32 = bytes[at] as u32;
    let b1: u32 = bytes[at + 1] as u32;
    let b2: u32 = bytes[at + 2] as u32;
    let b3: u32 = bytes[at + 3] as u32;
    let x: u32 = b0 + b1 * 256 + b2 * 65536 + b3 * 16777216;
    proof {
        assert(x % 256 == b0 && x / 256 % 256 == b1 && x / 65536 % 256 == b2 && x / 16777216
            == b3) by (bit_vector)
            requires
                b0 < 256,
                b1 < 256,
                b2 < 256,
                b3 < 256,
                x == b0 + b1 * 256 + b2 * 65536 + b3 * 16777216,
        ;
        let got = u32_le_bytes(x);
        let want = bytes@.subrange(at as int, at + 4);
        assert(got[0] == want[0]);
        assert(got[1] == want[1]);
        assert(got[2] == want[2]);
        assert(got[3] == want[3]);
        assert(got =~= want);
    }
    x
}

/// A number is told by its little-endian bytes.
pub proof fn lemma_u32_le_bytes_injective(x: u32, y: u32)
    requires
        u32_le_bytes(x) == u32_le_bytes(y),
    ensures
        x == y,
{
    let a = u32_le_bytes(x);
    let b = u32_le_bytes(y);
    assert(a[0] == b[0] && a[1] == b[1] && a[2] == b[2] && a[3] == b[3]);
    lemma_u32_parts(x);
    lemma_u32_parts(y);
}

/// A number is the sum of its four bytes, each at its place.
proof fn lemma_u32_parts(x: u32)
    ensures
        x == (x % 256) + (x / 256 % 256) * 256 + (x / 65536 % 256) * 65536 + (x / 16777216)
            * 16777216,
        x / 16777216 < 256,
{
    assert(x == (x % 256) + (x / 256 % 256) * 256 + (x / 65536 % 256) * 65536 + (x / 16777216)
        * 16777216 && x / 16777216 < 256) by (bit_vector);
}

/// Big-endian bytes of `x`.
pub fn u16_to_be_bytes(x: u16) -> (bytes: [u8; 2])
    ensures
        bytes@ == u16_be_bytes(x),
{
    let bytes = [(x / 256) as u8, (x % 256) as u8];
    proof {
        assert(bytes@ =~= u16_be_bytes(x));
    }
    bytes
}

/// Digests with the same bytes are the same digest.
pub proof fn lemma_digest_ext(a: Digest, b: Digest)
    requires
        a@ == b@,
    ensures
        a == b,
{
    assert(a.0 =~= b.0);
}

} // verus!
