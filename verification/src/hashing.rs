//! Hash keys for the ring: the default hash builder (SipHash-2-4 with both
//! keys zero) and the function that turns a hashable value into a ring key.

use std::hash::BuildHasher;
use std::hash::Hash;
use std::hash::Hasher;

use siphasher::sip::SipHasher;
use vstd::prelude::*;

verus! {

/// Makes `siphasher::sip::SipHasher`, the hasher of the default builder,
/// known as an opaque type.
#[verifier::external_type_specification]
#[verifier::external_body]
pub struct ExSipHasher(SipHasher);

/// `siphasher::sip::SipHasher::new`: a SipHash-2-4 hasher whose two keys are
/// zero. The hasher's state is opaque here, so nothing is stated of it.
#[verifier::external_body]
fn sip_hasher_new() -> (hasher: SipHasher) {
    SipHasher::new()
}

/// The hash builder that a ring uses unless it is given another one.
#[derive(Clone, Copy, Debug, PartialEq, Eq)]
pub struct DefaultHashBuilder;

impl BuildHasher for DefaultHashBuilder {
    type Hasher = SipHasher;

    fn build_hasher(&self) -> SipHasher {
        sip_hasher_new()
    }
}

/// `BuildHasher::build_hasher` of the given builder. The builder and the
/// hasher it makes are of caller-chosen types, so nothing is stated of the
/// hasher.
#[verifier::external_body]
fn build_hasher_of<S: BuildHasher>(builder: &S) -> (hasher: S::Hasher) {
    builder.build_hasher()
}

/// `Hash::hash`: feeds `value` into `hasher` and hands the hasher back. What
/// is written depends on the value's own `Hash` impl, so nothing is stated of
/// the hasher afterwards.
#[verifier::external_body]
fn hash_into<T: Hash + ?Sized, H: Hasher>(value: &T, hasher: H) -> (fed: H) {
    let mut hasher = hasher;
    value.hash(&mut hasher);
    hasher
}

/// `Hasher::finish`: the digest of what was written so far. It depends on the
/// hasher's own impl, so nothing is stated of it.
#[verifier::external_body]
fn finish_of<H: Hasher>(hasher: &H) -> (digest: u64) {
    hasher.finish()
}

/// `h` is a position that hashing `input` under `hash_builder` gives: the
/// digest of a hasher that `hash_builder` built and `input` was fed into.
/// Whether the same input always gives the same position rests on the
/// builder's and the input's own impls.
pub closed spec fn hashes_to<S: BuildHasher, T: Hash + ?Sized>(hash_builder: &S, input: &T, h: u64) -> bool {
    exists|fresh: S::Hasher, fed: S::Hasher|
        #![trigger call_ensures(build_hasher_of::<S>, (hash_builder,), fresh), call_ensures(hash_into::<T, S::Hasher>, (input, fresh), fed)]
        {
            &&& call_ensures(build_hasher_of::<S>, (hash_builder,), fresh)
            &&& call_ensures(hash_into::<T, S::Hasher>, (input, fresh), fed)
            &&& call_ensures(finish_of::<S::Hasher>, (&fed,), h)
        }
}

/// Hashing `input` under `hash_builder` can give only one position: true
/// where the builder's and the input's impls hash deterministically, as the
/// default SipHash builder does.
pub open spec fn hashes_uniquely<S: BuildHasher, T: Hash + ?Sized>(hash_builder: &S, input: &T) -> bool {
    forall|h1: u64, h2: u64|
        #![trigger hashes_to(hash_builder, input, h1), hashes_to(hash_builder, input, h2)]
        hashes_to(hash_builder, input, h1) && hashes_to(hash_builder, input, h2) ==> h1 == h2
}

/// The ring position of `input`: a fresh hasher from `hash_builder`, fed with
/// `input`, then finished.
pub(crate) fn get_key<S: BuildHasher, T: Hash + ?Sized>(hash_builder: &S, input: &T) -> (key: u64)
    ensures
        hashes_to(hash_builder, input, key),
{
    let build = build_hasher_of::<S>;
    let feed = hash_into::<T, S::Hasher>;
    let finish = finish_of::<S::Hasher>;
    let fresh = build(hash_builder);
    let fed = feed(input, fresh);
    finish(&fed)
}

} // verus!
