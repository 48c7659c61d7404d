//! The hashes from which parameter sets are derived: personalised BLAKE2s and
//! Keccak-256, both with a 32-byte digest.
use vstd::prelude::*;
use vstd::slice::slice_to_vec;
use blake2_rfc_bellman_edition::blake2s::Blake2s;

verus! {

/// The BLAKE2s digest of `data` with a 32-byte output and the given
/// personalisation.
pub uninterp spec fn blake2s_personalized(personalization: Seq<u8>, data: Seq<u8>) -> Seq<u8>;

/// The Keccak-256 digest of `data`.
pub uninterp spec fn keccak256_of(data: Seq<u8>) -> Seq<u8>;

/// Relies on blake2_rfc's `Blake2s::with_params(32, &[], &[], personalization)`,
/// `update` and `finalize`: the 32-byte digest, which depends on the two byte
/// strings alone. `with_params` panics on a personalisation over 8 bytes.
#[verifier::external_body]
fn blake2s_digest(personalization: &[u8], data: &[u8]) -> (r: [u8; 32])
    requires
        personalization@.len() <= 8,
    ensures
        r@ == blake2s_personalized(personalization@, data@),
{
    let mut h = Blake2s::with_params(32, &[], &[], personalization);
    h.update(data);
    let mut out = [0u8; 32];
    out.copy_from_slice(h.finalize().as_bytes());
    out
}

/// Relies on tiny_keccak's `keccak256`: the 32-byte Keccak-256 digest.
#[verifier::external_body]
fn keccak256_digest(data: &[u8]) -> (r: [u8; 32])
    ensures
        r@ == keccak256_of(data@),
{
    tiny_keccak::keccak256(data)
}

/// A hash with a personalisation, fed in pieces, with a 32-byte digest.
pub trait GroupHasher: Sized {
    /// The personalisations that the hash accepts.
    spec fn accepts_personalization(personalization: Seq<u8>) -> bool;

    /// The digest of `data` under `personalization`.
    spec fn digest(personalization: Seq<u8>, data: Seq<u8>) -> Seq<u8>;

    spec fn spec_personalization(&self) -> Seq<u8>;

    /// What has been fed since the hasher was made or last finalised.
    spec fn spec_data(&self) -> Seq<u8>;

    fn new(personalization: &[u8]) -> (r: Self)
        requires
            Self::accepts_personalization(personalization@),
        ensures
            r.spec_personalization() == personalization@,
            r.spec_data() == Seq::<u8>::empty(),
    ;

    fn update(&mut self, data: &[u8])
        ensures
            final(self).spec_personalization() == old(self).spec_personalization(),
            final(self).spec_data() == old(self).spec_data() + data@,
    ;

    /// The digest of what was fed; the hasher then starts over with no
    /// personalisation.
    fn finalize(&mut self) -> (r: Vec<u8>)
        requires
            Self::accepts_personalization(old(self).spec_personalization()),
        ensures
            r@ == Self::digest(old(self).spec_personalization(), old(self).spec_data()),
            r@.len() == 32,
            final(self).spec_personalization() == Seq::<u8>::empty(),
            final(self).spec_data() == Seq::<u8>::empty(),
    ;
}

fn append_bytes(to: &mut Vec<u8>, data: &[u8])
    ensures
        final(to)@ == old(to)@ + data@,
{
    let mut i: usize = 0;
    while i < data.len()
        invariant
            i <= data@.len(),
            to@ == old(to)@ + data@.take(i as int),
        decreases data@.len() - i,
    {
        to.push(data[i]);
        assert(data@.take(i + 1) =~= data@.take(i as int).push(data@[i as int]));
        i = i + 1;
    }
    assert(data@.take(data@.len() as int) =~= data@);
}

/// BLAKE2s with a 32-byte digest and a personalisation of at most 8 bytes.
pub struct BlakeHasher {
    personalization: Vec<u8>,
    data: Vec<u8>,
}

impl GroupHasher for BlakeHasher {
    open spec fn accepts_personalization(personalization: Seq<u8>) -> bool {
        personalization.len() <= 8
    }

    open spec fn digest(personalization: Seq<u8>, data: Seq<u8>) -> Seq<u8> {
        blake2s_personalized(personalization, data)
    }

    closed spec fn spec_personalization(&self) -> Seq<u8> {
        self.personalization@
    }

    closed spec fn spec_data(&self) -> Seq<u8> {
        self.data@
    }

    fn new(personalization: &[u8]) -> (r: Self) {
        BlakeHasher { personalization: slice_to_vec(personalization), data: Vec::new() }
    }

    fn update(&mut self, data: &[u8]) {
        append_bytes(&mut self.data, data);
    }

    fn finalize(&mut self) -> (r: Vec<u8>) {
        let digest = blake2s_digest(self.personalization.as_slice(), self.data.as_slice());
        self.personalization = Vec::new();
        self.data = Vec::new();
        slice_to_vec(digest.as_slice())
    }
}

/// Keccak-256, personalised by prefixing the personalisation to the data.
pub struct Keccak256Hasher {
    personalization: Vec<u8>,
    data: Vec<u8>,
}

impl GroupHasher for Keccak256Hasher {
    open spec fn accepts_personalization(personalization: Seq<u8>) -> bool {
        true
    }

    open spec fn digest(personalization: Seq<u8>, data: Seq<u8>) -> Seq<u8> {
        keccak256_of(personalization + data)
    }

    closed spec fn spec_personalization(&self) -> Seq<u8> {
        self.personalization@
    }

    closed spec fn spec_data(&self) -> Seq<u8> {
        self.data@
    }

    fn new(personalization: &[u8]) -> (r: Self) {
        Keccak256Hasher { personalization: slice_to_vec(personalization), data: Vec::new() }
    }

    fn update(&mut self, data: &[u8]) {
        append_bytes(&mut self.data, data);
    }

    fn finalize(&mut self) -> (r: Vec<u8>) {
        let mut input = slice_to_vec(self.personalization.as_slice());
        append_bytes(&mut input, self.data.as_slice());
        let digest = keccak256_digest(input.as_slice());
        self.personalization = Vec::new();
        self.data = Vec::new();
        slice_to_vec(digest.as_slice())
    }
}

} // verus!
