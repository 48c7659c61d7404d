//! Parameter sets over the BN256 scalar field, derived transparently from
//! fixed tags and a hash.
use vstd::prelude::*;
use crate::batch::{all_wf, values};
use crate::constants::{
    gh_first_block, round_constants_tag, mds_tag, be_bytes, be_word, gh_first_block_bytes,
    round_constants_tag_bytes, mds_tag_bytes, u32_to_be_bytes, read_be_u32,
};
use crate::field::{Fr, le_value, modulus, field_from_le_bytes, lemma_value_injective};
use crate::group_hash::GroupHasher;
use crate::mds::{generate_mds_matrix, mds_from_seed};
use crate::params::{PoseidonHashParams, PoseidonParamsInternal, params_wf};
use crate::sbox::QuinticSBox;

verus! {

/// The number of nonces: a nonce is a 32-bit integer.
pub open spec fn nonce_count() -> nat {
    0x1_0000_0000
}

/// The round constant that nonce `nonce` yields, if its digest, read as a
/// little-endian integer, is a nonzero field element.
pub open spec fn round_constant_candidate<H: GroupHasher>(nonce: u32) -> Option<nat> {
    let v = le_value(H::digest(round_constants_tag(), gh_first_block() + be_bytes(nonce)));
    if v < modulus() && v != 0 {
        Some(v)
    } else {
        None
    }
}

/// The round constants that the nonces below `k` yield, in nonce order.
pub open spec fn accepted_constants<H: GroupHasher>(k: nat) -> Seq<nat>
    decreases k,
{
    if k == 0 {
        seq![]
    } else {
        let prev = accepted_constants::<H>((k - 1) as nat);
        match round_constant_candidate::<H>((k - 1) as u32) {
            Some(v) => prev.push(v),
            None => prev,
        }
    }
}

/// The first `n` round constants, if the nonces yield that many.
pub open spec fn derived_round_constants<H: GroupHasher>(n: nat) -> Option<Seq<nat>> {
    let all = accepted_constants::<H>(nonce_count());
    if all.len() >= n {
        Some(all.take(n as int))
    } else {
        None
    }
}

/// The seed of the generator of the MDS matrix: the digest under the MDS tag
/// read as eight big-endian 32-bit words.
pub open spec fn mds_seed<H: GroupHasher>() -> Seq<u32> {
    Seq::new(8, |i: int| be_word(H::digest(mds_tag(), gh_first_block()).subrange(4 * i, 4 * i + 4)))
}

proof fn lemma_accepted_prefix<H: GroupHasher>(k: nat, m: nat)
    requires
        k <= m,
    ensures
        accepted_constants::<H>(k).len() <= accepted_constants::<H>(m).len(),
        accepted_constants::<H>(m).take(accepted_constants::<H>(k).len() as int)
            == accepted_constants::<H>(k),
    decreases m,
{
    if k < m {
        lemma_accepted_prefix::<H>(k, (m - 1) as nat);
        let a = accepted_constants::<H>(k);
        let b = accepted_constants::<H>((m - 1) as nat);
        let c = accepted_constants::<H>(m);
        assert(c.take(b.len() as int) =~= b);
        assert(c.take(a.len() as int) =~= b.take(a.len() as int));
    } else {
        assert(accepted_constants::<H>(m).take(accepted_constants::<H>(m).len() as int)
            =~= accepted_constants::<H>(m));
    }
}

/// The first `n` round constants derived with the hash `H`: for nonces
/// 0, 1, ..., hash the first block and the big-endian nonce under the tag,
/// and keep each digest that is the little-endian encoding of a nonzero field
/// element. `None` when the nonces run out first.
pub fn derive_round_constants<H: GroupHasher>(n: usize) -> (r: Option<Vec<Fr>>)
    requires
        H::accepts_personalization(round_constants_tag()),
    ensures
        r.is_some() <==> derived_round_constants::<H>(n as nat).is_some(),
        r.is_some() ==> all_wf(r.unwrap()@) && values(r.unwrap()@)
            == derived_round_constants::<H>(n as nat).unwrap(),
{
    let tag = round_constants_tag_bytes();
    let first_block = gh_first_block_bytes();
    let mut round_constants: Vec<Fr> = Vec::with_capacity(n);
    let mut nonce: u64 = 0;
    while round_constants.len() < n && nonce < 0x1_0000_0000
        invariant
            H::accepts_personalization(round_constants_tag()),
            tag@ == round_constants_tag(),
            first_block@ == gh_first_block(),
            nonce <= 0x1_0000_0000,
            round_constants@.len() <= n,
            all_wf(round_constants@),
            values(round_constants@) == accepted_constants::<H>(nonce as nat),
        decreases 0x1_0000_0000 - nonce,
    {
        let nonce_bytes = u32_to_be_bytes(nonce as u32);
        let mut h = H::new(tag.as_slice());
        h.update(first_block.as_slice());
        h.update(nonce_bytes.as_slice());
        let digest = h.finalize();
        assert(first_block@ + nonce_bytes@ =~= Seq::<u8>::empty() + first_block@ + nonce_bytes@);
        match field_from_le_bytes(digest.as_slice()) {
            Some(constant) => {
                if !constant.is_zero() {
                    round_constants.push(constant);
                    assert(values(round_constants@) =~= accepted_constants::<H>(nonce as nat).push(constant.value()));
                }
            },
            None => {},
        }
        nonce = nonce + 1;
    }
    if round_constants.len() < n {
        None
    } else {
        proof {
            lemma_accepted_prefix::<H>(nonce as nat, nonce_count());
        }
        Some(round_constants)
    }
}

/// A parameter set over the BN256 scalar field with the quintic S-box.
#[derive(Clone)]
pub struct Bn256PoseidonParams {
    c: u32,
    r: u32,
    full_rounds: u32,
    partial_rounds: u32,
    round_constants: Vec<Fr>,
    mds_matrix: Vec<Fr>,
    security_level: u32,
    sbox: QuinticSBox,
}

/// `p` is the parameter set that generation with the hash `H` gives for
/// these arguments.
pub open spec fn generated_by<H: GroupHasher>(
    p: Bn256PoseidonParams,
    c: u32,
    r: u32,
    partial_rounds: u32,
    full_rounds: u32,
    security_level: u32,
) -> bool {
    let t = (c + r) as nat;
    &&& p.spec_capacity() == c
    &&& p.spec_rate() == r
    &&& p.spec_partial_rounds() == partial_rounds
    &&& p.spec_full_rounds() == full_rounds
    &&& p.spec_security_level() == security_level
    &&& derived_round_constants::<H>(((full_rounds + partial_rounds) * t) as nat) == Some(
        values(p.spec_round_constants()),
    )
    &&& mds_from_seed(mds_seed::<H>(), t) == Some(values(p.spec_mds_matrix()))
    &&& params_wf(&p)
}

/// The arguments describe a usable parameter set whose sizes fit in `u32`,
/// and `H` accepts the two tags as personalisations.
pub open spec fn generation_args_ok<H: GroupHasher>(
    c: u32,
    r: u32,
    partial_rounds: u32,
    full_rounds: u32,
) -> bool {
    let t = c + r;
    &&& c >= 1
    &&& r >= 1
    &&& full_rounds % 2 == 0
    &&& (full_rounds + partial_rounds) * t <= u32::MAX
    &&& t * t <= u32::MAX
    &&& H::accepts_personalization(round_constants_tag())
    &&& H::accepts_personalization(mds_tag())
}

impl Bn256PoseidonParams {
    /// Generates the parameter set for capacity `c` and rate `r`: round
    /// constants from the hash `H`, an MDS matrix from a generator seeded by
    /// it. `None` when the nonces or the sampling attempts run out.
    pub fn new_for_params<H: GroupHasher>(
        c: u32,
        r: u32,
        partial_rounds: u32,
        full_rounds: u32,
        security_level: u32,
    ) -> (res: Option<Self>)
        requires
            generation_args_ok::<H>(c, r, partial_rounds, full_rounds),
        ensures
            res.is_some() <==> (derived_round_constants::<H>(
                ((full_rounds + partial_rounds) * (c + r)) as nat,
            ).is_some() && mds_from_seed(mds_seed::<H>(), (c + r) as nat).is_some()),
            res.is_some() ==> generated_by::<H>(
                res.unwrap(),
                c,
                r,
                partial_rounds,
                full_rounds,
                security_level,
            ),
    {
        proof {
            let t = c + r;
            let n = full_rounds + partial_rounds;
            assert(t <= t * t && n <= n * t) by (nonlinear_arith)
                requires
                    t >= 2,
                    n >= 0,
            ;
        }
        let state_width = c + r;
        let num_round_constants = ((full_rounds + partial_rounds) * state_width) as usize;
        let round_constants = match derive_round_constants::<H>(num_round_constants) {
            Some(v) => v,
            None => {
                return None;
            },
        };
        let tag = mds_tag_bytes();
        let first_block = gh_first_block_bytes();
        let mut h = H::new(tag.as_slice());
        h.update(first_block.as_slice());
        let digest = h.finalize();
        assert(first_block@ =~= Seq::<u8>::empty() + first_block@);
        let d = digest.as_slice();
        let seed: [u32; 8] = [
            read_be_u32(&d[0..4]),
            read_be_u32(&d[4..8]),
            read_be_u32(&d[8..12]),
            read_be_u32(&d[12..16]),
            read_be_u32(&d[16..20]),
            read_be_u32(&d[20..24]),
            read_be_u32(&d[24..28]),
            read_be_u32(&d[28..32]),
        ];
        assert(seed@ =~= mds_seed::<H>());
        let mds_matrix = match generate_mds_matrix(state_width, &seed) {
            Some(m) => m,
            None => {
                return None;
            },
        };
        let p = Self {
            c,
            r,
            full_rounds,
            partial_rounds,
            round_constants,
            mds_matrix,
            security_level,
            sbox: QuinticSBox,
        };
        proof {
            let t = state_width as nat;
            assert(values(p.round_constants@).len() == p.round_constants@.len());
            assert(values(p.mds_matrix@).len() == p.mds_matrix@.len());
            assert(mds_from_seed(mds_seed::<H>(), t).unwrap().len() == t * t);
        }
        Some(p)
    }

    /// Capacity 1, rate 2, 8 full and 83 partial rounds, with BLAKE2s.
    pub fn new_checked_2_into_1() -> (res: Option<Self>)
        ensures
            res.is_some() <==> (derived_round_constants::<crate::group_hash::BlakeHasher>(273).is_some()
                && mds_from_seed(mds_seed::<crate::group_hash::BlakeHasher>(), 3).is_some()),
            res.is_some() ==> generated_by::<crate::group_hash::BlakeHasher>(res.unwrap(), 1, 2, 83, 8, 126),
    {
        Self::new_for_params::<crate::group_hash::BlakeHasher>(1, 2, 83, 8, 126)
    }

    /// Capacity 1, rate 2, 8 full and 83 partial rounds.
    pub fn new_2_into_1<H: GroupHasher>() -> (res: Option<Self>)
        requires
            H::accepts_personalization(round_constants_tag()),
            H::accepts_personalization(mds_tag()),
        ensures
            res.is_some() <==> (derived_round_constants::<H>(273).is_some() && mds_from_seed(
                mds_seed::<H>(),
                3,
            ).is_some()),
            res.is_some() ==> generated_by::<H>(res.unwrap(), 1, 2, 83, 8, 126),
    {
        Self::new_for_params::<H>(1, 2, 83, 8, 126)
    }

    /// Capacity 1, rate 3, 8 full and 83 partial rounds.
    pub fn new_3_into_1<H: GroupHasher>() -> (res: Option<Self>)
        requires
            H::accepts_personalization(round_constants_tag()),
            H::accepts_personalization(mds_tag()),
        ensures
            res.is_some() <==> (derived_round_constants::<H>(364).is_some() && mds_from_seed(
                mds_seed::<H>(),
                4,
            ).is_some()),
            res.is_some() ==> generated_by::<H>(res.unwrap(), 1, 3, 83, 8, 126),
    {
        Self::new_for_params::<H>(1, 3, 83, 8, 126)
    }
}

impl PoseidonParamsInternal for Bn256PoseidonParams {
    closed spec fn spec_round_constants(&self) -> Seq<Fr> {
        self.round_constants@
    }

    fn set_round_constants(&mut self, to: Vec<Fr>)
        ensures
            final(self).spec_capacity() == old(self).spec_capacity(),
            final(self).spec_rate() == old(self).spec_rate(),
            final(self).spec_full_rounds() == old(self).spec_full_rounds(),
            final(self).spec_partial_rounds() == old(self).spec_partial_rounds(),
            final(self).spec_mds_matrix() == old(self).spec_mds_matrix(),
            final(self).spec_security_level() == old(self).spec_security_level(),
            final(self).spec_sbox() == old(self).spec_sbox(),
    {
        self.round_constants = to;
    }
}

impl PoseidonHashParams for Bn256PoseidonParams {
    type SBox = QuinticSBox;

    closed spec fn spec_capacity(&self) -> u32 {
        self.c
    }

    closed spec fn spec_rate(&self) -> u32 {
        self.r
    }

    closed spec fn spec_full_rounds(&self) -> u32 {
        self.full_rounds
    }

    closed spec fn spec_partial_rounds(&self) -> u32 {
        self.partial_rounds
    }

    closed spec fn spec_mds_matrix(&self) -> Seq<Fr> {
        self.mds_matrix@
    }

    closed spec fn spec_security_level(&self) -> u32 {
        self.security_level
    }

    closed spec fn spec_sbox(&self) -> QuinticSBox {
        self.sbox
    }

    fn capacity(&self) -> (r: u32) {
        self.c
    }

    fn rate(&self) -> (r: u32) {
        self.r
    }

    fn num_full_rounds(&self) -> (r: u32) {
        self.full_rounds
    }

    fn num_partial_rounds(&self) -> (r: u32) {
        self.partial_rounds
    }

    fn round_constants(&self, round: u32) -> (r: &[Fr]) {
        proof {
            let tt = self.c + self.r;
            let nn = self.full_rounds + self.partial_rounds;
            assert(tt <= nn * tt && tt * (round + 1) <= nn * tt) by (nonlinear_arith)
                requires
                    round < nn,
                    tt >= 0,
            ;
        }
        let t = self.c + self.r;
        proof {
            let n = (self.full_rounds + self.partial_rounds) as nat;
            assert(t * (round + 1) <= n * t) by (nonlinear_arith)
                requires
                    round < n,
            ;
            assert(t * round <= t * (round + 1)) by (nonlinear_arith);
        }
        let start = (t * round) as usize;
        let end = ((t as u64) * (round as u64 + 1)) as usize;
        &self.round_constants.as_slice()[start..end]
    }

    fn mds_matrix_row(&self, row: u32) -> (r: &[Fr]) {
        proof {
            let tt = self.c + self.r;
            assert(tt <= tt * tt) by (nonlinear_arith)
                requires
                    row < tt,
            ;
        }
        let t = self.c + self.r;
        proof {
            assert(t * (row + 1) <= t * t) by (nonlinear_arith)
                requires
                    row < t,
            ;
            assert(t * row <= t * (row + 1)) by (nonlinear_arith);
        }
        let start = (t * row) as usize;
        let end = (t * (row + 1)) as usize;
        &self.mds_matrix.as_slice()[start..end]
    }

    fn security_level(&self) -> (r: u32) {
        self.security_level
    }

    fn sbox(&self) -> (r: &QuinticSBox) {
        &self.sbox
    }
}

/// Generation is deterministic: two parameter sets generated with the same
/// hash and arguments have the same round constants and the same MDS matrix,
/// element for element.
pub proof fn lemma_generation_deterministic<H: GroupHasher>(
    a: Bn256PoseidonParams,
    b: Bn256PoseidonParams,
    c: u32,
    r: u32,
    partial_rounds: u32,
    full_rounds: u32,
    security_level: u32,
)
    requires
        generated_by::<H>(a, c, r, partial_rounds, full_rounds, security_level),
        generated_by::<H>(b, c, r, partial_rounds, full_rounds, security_level),
    ensures
        a.spec_round_constants() == b.spec_round_constants(),
        a.spec_mds_matrix() == b.spec_mds_matrix(),
{
    lemma_same_values_same_elements(a.spec_round_constants(), b.spec_round_constants());
    lemma_same_values_same_elements(a.spec_mds_matrix(), b.spec_mds_matrix());
}

proof fn lemma_same_values_same_elements(x: Seq<Fr>, y: Seq<Fr>)
    requires
        values(x) == values(y),
    ensures
        x == y,
{
    assert(x.len() == values(x).len() && y.len() == values(y).len());
    assert forall|i: int| 0 <= i < x.len() implies x[i] == y[i] by {
        assert(values(x)[i] == x[i].value());
        assert(values(y)[i] == y[i].value());
        lemma_value_injective(x[i], y[i]);
    }
    assert(x =~= y);
}

} // verus!
