//! Digests of source bytes and their hexadecimal form.

use vstd::prelude::*;

verus! {

/// The incremental hash state of the `blake3` crate.
#[verifier::external_type_specification]
#[verifier::external_body]
pub struct ExHasher(blake3::Hasher);

/// The bytes that a hash state has taken in so far, in order.
pub uninterp spec fn hasher_input(h: blake3::Hasher) -> Seq<u8>;

/// The input offset of a hash state: zero unless it was made to hash a part
/// of a larger input.
pub uninterp spec fn hasher_offset(h: blake3::Hasher) -> nat;

/// The 32-byte BLAKE3 hash of `input`.
pub uninterp spec fn blake3_digest(input: Seq<u8>) -> Seq<u8>;

/// `blake3::Hasher::new`: a state for the regular hash function that has
/// taken in nothing and has no input offset.
#[verifier::external_body]
fn hasher_new() -> (h: blake3::Hasher)
    ensures
        hasher_input(h) == Seq::<u8>::empty(),
        hasher_offset(h) == 0,
{
    blake3::Hasher::new()
}

/// `blake3::Hasher::update`: the state takes in `data` after what it has
/// already taken in, and keeps its input offset. Only a state with an input
/// offset limits how much it takes, so for one without the call does not panic.
#[verifier::external_body]
fn hasher_update(h: &mut blake3::Hasher, data: &[u8])
    requires
        hasher_offset(*old(h)) == 0,
    ensures
        hasher_input(*final(h)) == hasher_input(*old(h)) + data@,
        hasher_offset(*final(h)) == 0,
    no_unwind
{
    h.update(data);
}

/// `blake3::Hasher::finalize`, then `Hash::as_bytes`: the hash of everything
/// that the state has taken in. It leaves the state as it is, and is only for
/// a state without an input offset.
#[verifier::external_body]
fn hasher_finalize(h: &blake3::Hasher) -> (digest: [u8; 32])
    requires
        hasher_offset(*h) == 0,
    ensures
        digest@ == blake3_digest(hasher_input(*h)),
{
    *h.finalize().as_bytes()
}

/// The lowercase hexadecimal digit of `n` (`n < 16`).
pub open spec fn hex_digit(n: nat) -> char {
    if n < 10 {
        (('0' as u8) + n) as u8 as char
    } else {
        (('a' as u8) + (n - 10)) as u8 as char
    }
}

/// The lowercase hexadecimal form of `bytes`: two digits for each byte, the
/// high half first.
pub open spec fn hex_lower(bytes: Seq<u8>) -> Seq<char> {
    Seq::new(
        2 * bytes.len(),
        |i: int|
            if i % 2 == 0 {
                hex_digit((bytes[i / 2] / 16) as nat)
            } else {
                hex_digit((bytes[i / 2] % 16) as nat)
            },
    )
}

/// `hex::encode`: each byte becomes two lowercase hexadecimal digits, the
/// high half first.
#[verifier::external_body]
pub(crate) fn hex_encode(bytes: &[u8]) -> (s: String)
    ensures
        s@ == hex_lower(bytes@),
{
    hex::encode(bytes)
}

/// A running BLAKE3 hash of a source that arrives in pieces.
pub struct SourceHasher {
    inner: blake3::Hasher,
}

impl SourceHasher {
    #[verifier::type_invariant]
    spec fn regular(self) -> bool {
        hasher_offset(self.inner) == 0
    }

    /// The bytes taken in so far, in order.
    pub closed spec fn absorbed(self) -> Seq<u8> {
        hasher_input(self.inner)
    }

    /// A hasher that has taken in nothing.
    pub fn new() -> (h: Self)
        ensures
            h.absorbed() == Seq::<u8>::empty(),
    {
        SourceHasher { inner: hasher_new() }
    }

    /// Takes in the next piece of the source.
    pub fn update(&mut self, data: &[u8])
        ensures
            final(self).absorbed() == old(self).absorbed() + data@,
    {
        proof {
            use_type_invariant(&*self);
        }
        hasher_update(&mut self.inner, data);
    }

    /// The hash of everything taken in so far.
    pub fn finalize(&self) -> (digest: [u8; 32])
        ensures
            digest@ == blake3_digest(self.absorbed()),
    {
        proof {
            use_type_invariant(self);
        }
        hasher_finalize(&self.inner)
    }
}

/// The BLAKE3 hash of `data`.
pub fn hash_bytes(data: &[u8]) -> (digest: [u8; 32])
    ensures
        digest@ == blake3_digest(data@),
{
    let mut h = SourceHasher::new();
    h.update(data);
    assert(h.absorbed() =~= data@);
    h.finalize()
}

} // verus!
