//! What a parameter set of the permutation offers, and when it is usable.
use vstd::prelude::*;
use crate::batch::all_wf;
use crate::field::Fr;
use crate::sbox::SBox;

verus! {

/// Replacement of the round constants of a parameter set.
pub trait PoseidonParamsInternal: Sized + Clone {
    /// The round constants, one block of `state_width` per round.
    spec fn spec_round_constants(&self) -> Seq<Fr>;

    fn set_round_constants(&mut self, to: Vec<Fr>)
        requires
            to@.len() == old(self).spec_round_constants().len(),
            all_wf(to@),
        ensures
            final(self).spec_round_constants() == to@,
    ;
}

/// A parameter set of the permutation and of the sponge built on it.
pub trait PoseidonHashParams: PoseidonParamsInternal {
    type SBox: SBox;

    spec fn spec_capacity(&self) -> u32;

    spec fn spec_rate(&self) -> u32;

    spec fn spec_full_rounds(&self) -> u32;

    spec fn spec_partial_rounds(&self) -> u32;

    /// The MDS matrix, row by row.
    spec fn spec_mds_matrix(&self) -> Seq<Fr>;

    spec fn spec_security_level(&self) -> u32;

    spec fn spec_sbox(&self) -> Self::SBox;

    fn capacity(&self) -> (r: u32)
        ensures
            r == self.spec_capacity(),
    ;

    fn rate(&self) -> (r: u32)
        ensures
            r == self.spec_rate(),
    ;

    fn state_width(&self) -> (r: u32)
        requires
            self.spec_capacity() + self.spec_rate() <= u32::MAX,
        ensures
            r == self.spec_capacity() + self.spec_rate(),
    {
        self.capacity() + self.rate()
    }

    fn num_full_rounds(&self) -> (r: u32)
        ensures
            r == self.spec_full_rounds(),
    ;

    fn num_partial_rounds(&self) -> (r: u32)
        ensures
            r == self.spec_partial_rounds(),
    ;

    /// The constants added in round `round`.
    fn round_constants(&self, round: u32) -> (r: &[Fr])
        requires
            round < self.spec_full_rounds() + self.spec_partial_rounds(),
            (self.spec_full_rounds() + self.spec_partial_rounds()) * (self.spec_capacity()
                + self.spec_rate()) <= u32::MAX,
            self.spec_round_constants().len() == (self.spec_full_rounds()
                + self.spec_partial_rounds()) * (self.spec_capacity() + self.spec_rate()),
        ensures
            r@ == self.spec_round_constants().subrange(
                (self.spec_capacity() + self.spec_rate()) * round,
                (self.spec_capacity() + self.spec_rate()) * (round + 1),
            ),
    ;

    /// Row `row` of the MDS matrix.
    fn mds_matrix_row(&self, row: u32) -> (r: &[Fr])
        requires
            row < self.spec_capacity() + self.spec_rate(),
            (self.spec_capacity() + self.spec_rate()) * (self.spec_capacity() + self.spec_rate())
                <= u32::MAX,
            self.spec_mds_matrix().len() == (self.spec_capacity() + self.spec_rate()) * (
            self.spec_capacity() + self.spec_rate()),
        ensures
            r@ == self.spec_mds_matrix().subrange(
                (self.spec_capacity() + self.spec_rate()) * row,
                (self.spec_capacity() + self.spec_rate()) * (row + 1),
            ),
    ;

    fn security_level(&self) -> (r: u32)
        ensures
            r == self.spec_security_level(),
    ;

    fn output_len(&self) -> (r: u32)
        ensures
            r == self.spec_capacity(),
    {
        self.capacity()
    }

    fn absorbtion_cycle_len(&self) -> (r: u32)
        ensures
            r == self.spec_rate(),
    {
        self.rate()
    }

    fn compression_rate(&self) -> (r: u32)
        requires
            self.spec_capacity() > 0,
        ensures
            r == self.spec_rate() / self.spec_capacity(),
    {
        self.absorbtion_cycle_len() / self.output_len()
    }

    fn sbox(&self) -> (r: &Self::SBox)
        ensures
            *r == self.spec_sbox(),
    ;
}

/// The number of field elements in the permutation's state.
pub open spec fn state_width_of<P: PoseidonHashParams>(p: &P) -> nat {
    (p.spec_capacity() + p.spec_rate()) as nat
}

/// The number of rounds of the permutation.
pub open spec fn num_rounds_of<P: PoseidonHashParams>(p: &P) -> nat {
    (p.spec_full_rounds() + p.spec_partial_rounds()) as nat
}

/// The parameter set is usable: nonzero rate and capacity, an even number of
/// full rounds, one block of constants per round, a square MDS matrix of the
/// state's width, canonical elements, and sizes whose products fit in `u32`.
pub open spec fn params_wf<P: PoseidonHashParams>(p: &P) -> bool {
    let t = state_width_of(p);
    &&& p.spec_capacity() >= 1
    &&& p.spec_rate() >= 1
    &&& p.spec_full_rounds() % 2 == 0
    &&& num_rounds_of(p) * t <= u32::MAX
    &&& t * t <= u32::MAX
    &&& p.spec_round_constants().len() == num_rounds_of(p) * t
    &&& p.spec_mds_matrix().len() == t * t
    &&& all_wf(p.spec_round_constants())
    &&& all_wf(p.spec_mds_matrix())
    &&& p.spec_sbox().wf()
}

} // verus!
