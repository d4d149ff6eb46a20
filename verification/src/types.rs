//! Fixed-width byte values that the protocols exchange: addresses, hashes,
//! curve points, scalars and signatures. Every contract in the crate speaks of
//! such a value through its view, the sequence of its bytes.

use vstd::prelude::*;

verus! {

/// Compares two byte arrays of the same width.
pub fn bytes_equal<const N: usize>(a: &[u8; N], b: &[u8; N]) -> (same: bool)
    ensures
        same == (a@ == b@),
{
    let mut i: usize = 0;
    while i < N
        invariant
            i <= N,
            forall|k: int| 0 <= k < i ==> a@[k] == b@[k],
        decreases N - i,
    {
        if a[i] != b[i] {
            return false;
        }
        i += 1;
    }
    assert(a@ =~= b@);
    true
}

/// Copies a byte array into a vector.
pub fn bytes_to_vec<const N: usize>(a: &[u8; N]) -> (v: Vec<u8>)
    ensures
        v@ == a@,
{
    let mut v: Vec<u8> = Vec::new();
    let mut i: usize = 0;
    while i < N
        invariant
            i <= N,
            v@ == a@.take(i as int),
        decreases N - i,
    {
        v.push(a[i]);
        assert(v@ =~= a@.take(i as int + 1));
        i += 1;
    }
    assert(a@.take(N as int) =~= a@);
    v
}

/// Account address: the last twenty bytes of the hash of a public key.
#[derive(Clone, Copy, Debug, PartialEq, Eq, Hash)]
pub struct Address {
    pub bytes: [u8; 20],
}

/// Thirty-two byte digest.
#[derive(Clone, Copy, Debug, PartialEq, Eq, Hash)]
pub struct H256 {
    pub bytes: [u8; 32],
}

/// Curve point in uncompressed form: the two coordinates, big-endian.
#[derive(Clone, Copy, Debug, PartialEq, Eq, Hash)]
pub struct Public {
    pub bytes: [u8; 64],
}

/// Scalar of the curve's field, big-endian.
#[derive(Clone, Copy, Debug, PartialEq, Eq)]
pub struct Secret {
    pub bytes: [u8; 32],
}

/// Recoverable signature: `r`, `s` and the recovery byte.
#[derive(Clone, Copy, Debug, PartialEq, Eq)]
pub struct Signature {
    pub bytes: [u8; 65],
}

/// Caller-chosen identifier of a server key.
pub type ServerKeyId = H256;

/// Digest of the message that a signing session signs.
pub type MessageHash = H256;

/// A node is known by its public key.
pub type NodeId = Public;

/// Signature over the description of a servers set.
pub type RequestSignature = Signature;

impl View for Address {
    type V = Seq<u8>;

    open spec fn view(&self) -> Seq<u8> {
        self.bytes@
    }
}

impl View for H256 {
    type V = Seq<u8>;

    open spec fn view(&self) -> Seq<u8> {
        self.bytes@
    }
}

impl View for Public {
    type V = Seq<u8>;

    open spec fn view(&self) -> Seq<u8> {
        self.bytes@
    }
}

impl View for Secret {
    type V = Seq<u8>;

    open spec fn view(&self) -> Seq<u8> {
        self.bytes@
    }
}

impl View for Signature {
    type V = Seq<u8>;

    open spec fn view(&self) -> Seq<u8> {
        self.bytes@
    }
}

impl Address {
    /// The value with the given bytes.
    pub fn new(bytes: [u8; 20]) -> (a: Address)
        ensures
            a@ == bytes@,
    {
        Address { bytes }
    }

    /// Whether the two hold the same bytes.
    pub fn same(&self, other: &Address) -> (r: bool)
        ensures
            r == (self@ == other@),
    {
        bytes_equal(&self.bytes, &other.bytes)
    }
}

impl H256 {
    /// The value with the given bytes.
    pub fn new(bytes: [u8; 32]) -> (h: H256)
        ensures
            h@ == bytes@,
    {
        H256 { bytes }
    }

    /// Whether the two hold the same bytes.
    pub fn same(&self, other: &H256) -> (r: bool)
        ensures
            r == (self@ == other@),
    {
        bytes_equal(&self.bytes, &other.bytes)
    }
}

impl Public {
    /// The value with the given bytes.
    pub fn new(bytes: [u8; 64]) -> (p: Public)
        ensures
            p@ == bytes@,
    {
        Public { bytes }
    }

    /// Whether the two hold the same bytes.
    pub fn same(&self, other: &Public) -> (r: bool)
        ensures
            r == (self@ == other@),
    {
        bytes_equal(&self.bytes, &other.bytes)
    }
}

impl Secret {
    /// The value with the given bytes.
    pub fn new(bytes: [u8; 32]) -> (s: Secret)
        ensures
            s@ == bytes@,
    {
        Secret { bytes }
    }

    /// Whether the two hold the same bytes.
    pub fn same(&self, other: &Secret) -> (r: bool)
        ensures
            r == (self@ == other@),
    {
        bytes_equal(&self.bytes, &other.bytes)
    }
}

impl Signature {
    /// The value with the given bytes.
    pub fn new(bytes: [u8; 65]) -> (s: Signature)
        ensures
            s@ == bytes@,
    {
        Signature { bytes }
    }

    /// Whether the two hold the same bytes.
    pub fn same(&self, other: &Signature) -> (r: bool)
        ensures
            r == (self@ == other@),
    {
        bytes_equal(&self.bytes, &other.bytes)
    }
}

} // verus!
