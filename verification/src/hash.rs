use vstd::prelude::*;

verus! {

/// A caller-supplied hash capability: a deterministic, stateless pure
/// function from a byte sequence to a digest byte sequence. The tree uses
/// one hasher both for leaf hashing and for internal-node combination.
pub trait Hasher {
    /// The mathematical function this hasher computes.
    spec fn hash_spec(&self, data: Seq<u8>) -> Seq<u8>;

    /// Hash a byte slice into a freshly allocated digest.
    fn hash(&self, data: &[u8]) -> (r: Vec<u8>)
        ensures
            r@ == self.hash_spec(data@),
    ;
}

/// Identity hash: the digest is the input itself, so roots built with it
/// can be inspected byte for byte.
pub fn debug_hash(data: &[u8]) -> (r: Vec<u8>)
    ensures
        r@ == data@,
{
    vstd::slice::slice_to_vec(data)
}

/// A hasher whose digest is a copy of the input bytes.
pub struct DebugHasher;

impl Hasher for DebugHasher {
    open spec fn hash_spec(&self, data: Seq<u8>) -> Seq<u8> {
        data
    }

    fn hash(&self, data: &[u8]) -> (r: Vec<u8>) {
        debug_hash(data)
    }
}

/// The MD5 digest of a byte sequence. The algorithm itself is left
/// uninterpreted; all that matters here is that the digest is a pure
/// function of the input bytes.
pub uninterp spec fn md5_of(data: Seq<u8>) -> Seq<u8>;

/// Relies on md5::compute: the returned digest is a pure function of the
/// input bytes and is always 16 bytes long.
#[verifier::external_body]
fn md5_hash(data: &[u8]) -> (r: Vec<u8>)
    ensures
        r@ == md5_of(data@),
        r@.len() == 16,
{
    let digest = md5::compute(data);
    digest.0.to_vec()
}

/// A hasher that computes the 16-byte MD5 digest of the input.
pub struct Md5Hasher;

impl Hasher for Md5Hasher {
    open spec fn hash_spec(&self, data: Seq<u8>) -> Seq<u8> {
        md5_of(data)
    }

    fn hash(&self, data: &[u8]) -> (r: Vec<u8>) {
        md5_hash(data)
    }
}

} // verus!
