//! The sponge for rate 2 and capacity 1, on fixed-size arrays.
use vstd::prelude::*;
use crate::batch::{all_wf, values};
use crate::field::{Fr, field_add, modulus};
use crate::params::{PoseidonHashParams, params_wf, state_width_of};
use crate::permutation::{permutation, poseidon_mimc, lemma_width_bounds};
use crate::sponge::{sponge_model_wf, ModeModel, SpongeModel, absorb_step, add_block, initial_sponge, ones, squeeze_step};

verus! {

/// The buffer and how much of it is in use: pending input `[0, n)` while
/// absorbing; output not yet handed out `[n, 2)` after a squeeze.
#[derive(Clone, Copy)]
enum FixedOpMode {
    AccumulatingToAbsorb(usize, [Fr; 2]),
    SqueezedInto(usize, [Fr; 2]),
}

/// A sponge of rate 2 and capacity 1 that behaves as `StatefulSponge` does.
#[derive(Clone)]
pub struct PosendonR2C1<'a, P: PoseidonHashParams> {
    params: &'a P,
    internal_state: [Fr; 3],
    mode: FixedOpMode,
}

/// The permutation of a state of width 3.
fn permute3<P: PoseidonHashParams>(params: &P, state: &[Fr; 3]) -> (r: [Fr; 3])
    requires
        params_wf(params),
        state_width_of(params) == 3,
        all_wf(state@),
    ensures
        all_wf(r@),
        values(r@) == permutation(params, values(state@)),
{
    let v = poseidon_mimc(params, state.as_slice());
    let r = [v[0], v[1], v[2]];
    assert(r@ =~= v@);
    r
}

impl<'a, P: PoseidonHashParams> PosendonR2C1<'a, P> {
    pub closed spec fn spec_params(&self) -> &'a P {
        self.params
    }

    /// The sponge as values, as `StatefulSponge::model` gives them.
    pub closed spec fn model(&self) -> SpongeModel {
        SpongeModel {
            state: values(self.internal_state@),
            mode: match self.mode {
                FixedOpMode::AccumulatingToAbsorb(n, b) => ModeModel::Absorbing(values(b@.take(n as int))),
                FixedOpMode::SqueezedInto(n, b) => ModeModel::Squeezed(values(b@.subrange(n as int, 2))),
            },
        }
    }

    pub closed spec fn wf(&self) -> bool {
        &&& params_wf(self.params)
        &&& self.params.spec_rate() == 2
        &&& self.params.spec_capacity() == 1
        &&& all_wf(self.internal_state@)
        &&& match self.mode {
            FixedOpMode::AccumulatingToAbsorb(n, b) => n <= 2 && all_wf(b@),
            FixedOpMode::SqueezedInto(n, b) => n <= 2 && all_wf(b@),
        }
    }

    /// What a usable sponge's model looks like.
    pub proof fn lemma_model_wf(&self)
        requires
            self.wf(),
        ensures
            sponge_model_wf(self.spec_params(), self.model()),
    {
        lemma_width_bounds(self.params);
        let b = match self.mode {
            FixedOpMode::AccumulatingToAbsorb(n, b) => b@.take(n as int),
            FixedOpMode::SqueezedInto(n, b) => b@.subrange(n as int, 2),
        };
        assert forall|i: int| 0 <= i < b.len() implies #[trigger] values(b)[i] < modulus() by {
            match self.mode {
                FixedOpMode::AccumulatingToAbsorb(n, a) => assert(a@[i].wf()),
                FixedOpMode::SqueezedInto(n, a) => assert(a@[n + i].wf()),
            }
        }
        assert forall|i: int| 0 <= i < self.internal_state@.len() implies #[trigger] values(self.internal_state@)[i] < modulus() by {
            assert(self.internal_state@[i].wf());
        }
    }

    pub fn new(params: &'a P) -> (r: Self)
        requires
            params_wf(params),
            params.spec_rate() == 2,
            params.spec_capacity() == 1,
        ensures
            r.wf(),
            r.spec_params() == params,
            r.model() == initial_sponge(params),
    {
        let z = Fr::zero();
        let r = Self {
            params,
            internal_state: [z, z, z],
            mode: FixedOpMode::AccumulatingToAbsorb(0, [z, z]),
        };
        assert(r.model().state =~= initial_sponge(params).state);
        assert(values(seq![z, z].take(0)) =~= seq![]);
        r
    }

    /// Absorbs one value; after a squeeze, unread output is dropped.
    pub fn absorb_single_value(&mut self, value: Fr)
        requires
            old(self).wf(),
            value.wf(),
        ensures
            final(self).wf(),
            final(self).spec_params() == old(self).spec_params(),
            final(self).model() == absorb_step(old(self).spec_params(), old(self).model(), value.value()),
    {
        let z = Fr::zero();
        match self.mode {
            FixedOpMode::AccumulatingToAbsorb(len, into) => {
                if len < 2 {
                    let b = if len == 0 { [value, into[1]] } else { [into[0], value] };
                    self.mode = FixedOpMode::AccumulatingToAbsorb(len + 1, b);
                    assert(values(b@.take(len + 1)) =~= values(into@.take(len as int)).push(value.value()));
                } else {
                    let mixed = [field_add(&self.internal_state[0], &into[0]), field_add(&self.internal_state[1], &into[1]), self.internal_state[2]];
                    assert(values(mixed@) =~= add_block(values(self.internal_state@), values(into@.take(2))));
                    self.internal_state = permute3(self.params, &mixed);
                    let b = [value, z];
                    self.mode = FixedOpMode::AccumulatingToAbsorb(1, b);
                    assert(values(b@.take(1)) =~= seq![value.value()]);
                }
            },
            FixedOpMode::SqueezedInto(_, _) => {
                let b = [value, z];
                self.mode = FixedOpMode::AccumulatingToAbsorb(1, b);
                assert(values(b@.take(1)) =~= seq![value.value()]);
            },
        }
    }

    /// Squeezes one value.
    pub fn squeeze_out_single(&mut self) -> (r: Fr)
        requires
            old(self).wf(),
        ensures
            final(self).wf(),
            final(self).spec_params() == old(self).spec_params(),
            r.wf(),
            (final(self).model(), r.value()) == squeeze_step(old(self).spec_params(), old(self).model()),
    {
        proof {
            lemma_width_bounds(self.params);
        }
        let one = Fr::one();
        match self.mode {
            FixedOpMode::AccumulatingToAbsorb(len, into) => {
                let block = if len == 0 { [one, one] } else if len == 1 { [into[0], one] } else { into };
                assert(values(block@) =~= values(into@.take(len as int)) + ones((2 - len) as nat));
                let mixed = [field_add(&self.internal_state[0], &block[0]), field_add(&self.internal_state[1], &block[1]), self.internal_state[2]];
                assert(values(mixed@) =~= add_block(values(self.internal_state@), values(block@)));
                self.internal_state = permute3(self.params, &mixed);
                let out = [self.internal_state[0], self.internal_state[1]];
                self.mode = FixedOpMode::SqueezedInto(1, out);
                assert(values(out@.subrange(1, 2)) =~= values(self.internal_state@).subrange(1, 2));
                out[0]
            },
            FixedOpMode::SqueezedInto(pos, into) => {
                if pos == 2 {
                    self.internal_state = permute3(self.params, &self.internal_state);
                    let out = [self.internal_state[0], self.internal_state[1]];
                    self.mode = FixedOpMode::SqueezedInto(1, out);
                    assert(values(out@.subrange(1, 2)) =~= values(self.internal_state@).subrange(1, 2));
                    assert(values(into@.subrange(2, 2)) =~= seq![]);
                    out[0]
                } else {
                    self.mode = FixedOpMode::SqueezedInto(pos + 1, into);
                    assert(values(into@.subrange(pos + 1, 2)) =~= values(into@.subrange(pos as int, 2)).drop_first());
                    into[pos]
                }
            },
        }
    }
}

} // verus!
