use sha1::Digest;
use vstd::prelude::*;

verus! {

/// A running SHA-1 computation: the state of a `sha1::Sha1` hasher.
/// Verus sees no field of it; what it has been fed is `hasher_input`.
#[verifier::external_body]
pub struct Sha1Hasher {
    inner: sha1::Sha1,
}

/// The bytes fed to a hasher since it was created, in order.
pub uninterp spec fn hasher_input(h: Sha1Hasher) -> Seq<u8>;

/// The SHA-1 digest of a byte sequence.
pub uninterp spec fn sha1_digest(input: Seq<u8>) -> Seq<u8>;

/// `sha1::Sha1::new()`: a hasher that has been fed nothing.
#[verifier::external_body]
pub fn hasher_new() -> (h: Sha1Hasher)
    ensures
        hasher_input(h) == Seq::<u8>::empty(),
{
    Sha1Hasher { inner: sha1::Sha1::new() }
}

/// `Digest::update`: feeds `data` after what the hasher already holds.
#[verifier::external_body]
pub fn hasher_update(h: &mut Sha1Hasher, data: &[u8])
    ensures
        hasher_input(*final(h)) == hasher_input(*old(h)) + data@,
{
    h.inner.update(data);
}

/// `Clone::clone` of `sha1::Sha1`: an independent hasher in the same state.
#[verifier::external_body]
pub fn hasher_clone(h: &Sha1Hasher) -> (r: Sha1Hasher)
    ensures
        hasher_input(r) == hasher_input(*h),
{
    Sha1Hasher { inner: h.inner.clone() }
}

/// `Digest::finalize`: the 20-byte SHA-1 digest of everything fed to the hasher.
#[verifier::external_body]
pub fn hasher_finalize(h: Sha1Hasher) -> (r: Vec<u8>)
    ensures
        r@ == sha1_digest(hasher_input(h)),
        r@.len() == 20,
{
    h.inner.finalize().to_vec()
}

}
