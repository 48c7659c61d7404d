//! The permutation: rounds of constant addition, S-box and MDS mixing.
use vstd::prelude::*;
use vstd::slice::slice_to_vec;
use crate::batch::{all_wf, values};
use crate::field::{Fr, fadd, fmul, field_add, field_mul, lemma_value_injective};
use crate::params::{PoseidonHashParams, params_wf, state_width_of, num_rounds_of};
use crate::sbox::SBox;

verus! {

/// The field dot product of the first `n` entries of `a` and `b`,
/// accumulated from the first entry on.
pub open spec fn dot(a: Seq<nat>, b: Seq<nat>, n: nat) -> nat
    decreases n,
{
    if n == 0 {
        0
    } else {
        fadd(dot(a, b, (n - 1) as nat), fmul(a[n - 1], b[n - 1]))
    }
}

/// The product of a row-major square matrix `m` with the vector `s`.
pub open spec fn mds_apply(m: Seq<nat>, s: Seq<nat>) -> Seq<nat> {
    let t = s.len();
    Seq::new(t, |i: int| dot(s, m.subrange(i * t, i * t + t), t))
}

/// Element-wise field addition of `c` to `s`.
pub open spec fn add_constants(s: Seq<nat>, c: Seq<nat>) -> Seq<nat> {
    Seq::new(s.len(), |i: int| fadd(s[i], c[i]))
}

/// The S-box on every slot (`full`), or on the last slot only.
pub open spec fn sbox_layer<B: SBox>(b: B, s: Seq<nat>, full: bool) -> Seq<nat> {
    if full {
        Seq::new(s.len(), |i: int| b.map_value(s[i]))
    } else {
        s.update(s.len() - 1, b.map_value(s[s.len() - 1]))
    }
}

/// Round `r` applies the S-box to the whole state: the first and the last
/// half of the full rounds.
pub open spec fn is_full_round<P: PoseidonHashParams>(p: &P, r: nat) -> bool {
    r < p.spec_full_rounds() / 2 || r >= p.spec_full_rounds() / 2 + p.spec_partial_rounds()
}

/// One round on the state `s`: add the constants of round `r`, apply the
/// S-box layer, multiply by the MDS matrix.
pub open spec fn round_step<P: PoseidonHashParams>(p: &P, s: Seq<nat>, r: nat, full: bool) -> Seq<nat> {
    let t = s.len();
    let with_constants = add_constants(
        s,
        values(p.spec_round_constants()).subrange((t * r) as int, (t * r + t) as int),
    );
    mds_apply(values(p.spec_mds_matrix()), sbox_layer(p.spec_sbox(), with_constants, full))
}

/// The state after the first `n` rounds.
pub open spec fn rounds<P: PoseidonHashParams>(p: &P, s: Seq<nat>, n: nat) -> Seq<nat>
    decreases n,
{
    if n == 0 {
        s
    } else {
        let r = (n - 1) as nat;
        round_step(p, rounds(p, s, r), r, is_full_round(p, r))
    }
}

/// The permutation of the state `s`.
pub open spec fn permutation<P: PoseidonHashParams>(p: &P, s: Seq<nat>) -> Seq<nat> {
    rounds(p, s, num_rounds_of(p))
}

/// The field dot product of two slices of equal length.
pub fn scalar_product(input: &[Fr], by: &[Fr]) -> (r: Fr)
    requires
        input@.len() == by@.len(),
        all_wf(input@),
        all_wf(by@),
    ensures
        r.wf(),
        r.value() == dot(values(input@), values(by@), input@.len()),
{
    let mut result = Fr::zero();
    let mut i: usize = 0;
    while i < input.len()
        invariant
            input@.len() == by@.len(),
            all_wf(input@),
            all_wf(by@),
            i <= input@.len(),
            result.wf(),
            result.value() == dot(values(input@), values(by@), i as nat),
        decreases input@.len() - i,
    {
        let tmp = field_mul(&input[i], &by[i]);
        result = field_add(&result, &tmp);
        i = i + 1;
    }
    result
}

/// A usable parameter set has a state of at least two elements, and its
/// width and round count fit in `u32`.
pub proof fn lemma_width_bounds<P: PoseidonHashParams>(p: &P)
    requires
        params_wf(p),
    ensures
        2 <= state_width_of(p) <= u32::MAX,
        num_rounds_of(p) <= u32::MAX,
{
    let t = state_width_of(p);
    let n = num_rounds_of(p);
    assert(t <= t * t) by (nonlinear_arith)
        requires
            t >= 2,
    ;
    assert(n <= n * t) by (nonlinear_arith)
        requires
            t >= 2,
    ;
}

/// Applies round `round` to `state`, with the S-box on every slot when `full`.
fn apply_round<P: PoseidonHashParams>(params: &P, state: &mut Vec<Fr>, round: u32, full: bool)
    requires
        params_wf(params),
        round < num_rounds_of(params),
        old(state)@.len() == state_width_of(params),
        all_wf(old(state)@),
    ensures
        final(state)@.len() == old(state)@.len(),
        all_wf(final(state)@),
        values(final(state)@) == round_step(params, values(old(state)@), round as nat, full),
{
    proof {
        lemma_width_bounds(params);
    }
    let ghost s0 = values(state@);
    let ghost tt = state_width_of(params);
    let t = state.len();
    let rc = params.round_constants(round);
    proof {
        assert(tt * (round + 1) == tt * round + tt) by (nonlinear_arith);
        let nr = num_rounds_of(params);
        assert((tt * round) + tt <= nr * tt) by (nonlinear_arith)
            requires
                round < nr,
        ;
    }
    let ghost crs = values(params.spec_round_constants()).subrange((tt * round) as int, (tt * round + tt) as int);
    let mut i: usize = 0;
    while i < t
        invariant
            t == tt,
            state@.len() == t,
            rc@.len() == t,
            all_wf(rc@),
            all_wf(state@),
            crs == values(rc@),
            s0.len() == t,
            i <= t,
            forall|j: int| 0 <= j < i ==> (#[trigger] state@[j]).value() == fadd(s0[j], crs[j]),
            forall|j: int| i <= j < t ==> (#[trigger] state@[j]).value() == s0[j],
        decreases t - i,
    {
        let v = field_add(&state[i], &rc[i]);
        state[i] = v;
        i = i + 1;
    }
    let ghost s1 = values(state@);
    assert(s1 == add_constants(s0, crs));
    let sbox = params.sbox();
    if full {
        sbox.apply(state.as_mut_slice());
        assert(values(state@) == sbox_layer(params.spec_sbox(), s1, true));
    } else {
        let mut tail: Vec<Fr> = Vec::new();
        tail.push(state[t - 1]);
        sbox.apply(tail.as_mut_slice());
        state[t - 1] = tail[0];
        assert(values(state@) == sbox_layer(params.spec_sbox(), s1, false));
    }
    let ghost s2 = values(state@);
    let mut scratch: Vec<Fr> = Vec::with_capacity(t);
    let mut row: usize = 0;
    while row < t
        invariant
            t == tt,
            state@.len() == t,
            all_wf(state@),
            s2 == values(state@),
            params_wf(params),
            tt == state_width_of(params),
            tt <= u32::MAX,
            row <= t,
            scratch@.len() == row,
            all_wf(scratch@),
            forall|j: int|
                0 <= j < row ==> (#[trigger] scratch@[j]).value() == mds_apply(values(params.spec_mds_matrix()), s2)[j],
        decreases t - row,
    {
        let m = params.mds_matrix_row(row as u32);
        proof {
            assert(tt * (row + 1) == tt * row + tt) by (nonlinear_arith);
            assert((tt * row) + tt <= tt * tt) by (nonlinear_arith)
                requires
                    row < tt,
            ;
            assert(values(m@) =~= values(params.spec_mds_matrix()).subrange(row * tt, row * tt + tt)) by {
                assert(row * tt == tt * row) by (nonlinear_arith);
            }
        }
        scratch.push(scalar_product(state.as_slice(), m));
        row = row + 1;
    }
    *state = scratch;
    assert(values(state@) =~= round_step(params, s0, round as nat, full));
}

/// The permutation of `old_state`, whose length is the state width.
pub fn poseidon_mimc<P: PoseidonHashParams>(params: &P, old_state: &[Fr]) -> (r: Vec<Fr>)
    requires
        params_wf(params),
        old_state@.len() == state_width_of(params),
        all_wf(old_state@),
    ensures
        r@.len() == old_state@.len(),
        all_wf(r@),
        values(r@) == permutation(params, values(old_state@)),
{
    proof {
        lemma_width_bounds(params);
    }
    let ghost s0 = values(old_state@);
    let mut state = slice_to_vec(old_state);
    let half_of_full_rounds = params.num_full_rounds() / 2;
    let partial_rounds = params.num_partial_rounds();
    let all_rounds = params.num_full_rounds() + partial_rounds;
    let mut round: u32 = 0;
    while round < half_of_full_rounds
        invariant
            params_wf(params),
            half_of_full_rounds == params.spec_full_rounds() / 2,
            all_rounds == num_rounds_of(params),
            round <= half_of_full_rounds,
            state@.len() == state_width_of(params),
            all_wf(state@),
            values(state@) == rounds(params, s0, round as nat),
        decreases half_of_full_rounds - round,
    {
        apply_round(params, &mut state, round, true);
        round = round + 1;
    }
    while round < half_of_full_rounds + partial_rounds
        invariant
            params_wf(params),
            half_of_full_rounds == params.spec_full_rounds() / 2,
            partial_rounds == params.spec_partial_rounds(),
            all_rounds == num_rounds_of(params),
            half_of_full_rounds <= round <= half_of_full_rounds + partial_rounds,
            state@.len() == state_width_of(params),
            all_wf(state@),
            values(state@) == rounds(params, s0, round as nat),
        decreases half_of_full_rounds + partial_rounds - round,
    {
        apply_round(params, &mut state, round, false);
        round = round + 1;
    }
    while round < all_rounds
        invariant
            params_wf(params),
            half_of_full_rounds == params.spec_full_rounds() / 2,
            partial_rounds == params.spec_partial_rounds(),
            all_rounds == num_rounds_of(params),
            half_of_full_rounds + partial_rounds <= round <= all_rounds,
            state@.len() == state_width_of(params),
            all_wf(state@),
            values(state@) == rounds(params, s0, round as nat),
        decreases all_rounds - round,
    {
        apply_round(params, &mut state, round, true);
        round = round + 1;
    }
    state
}

/// The permutation is a function of the parameters and the state: two
/// results of `poseidon_mimc` on states with the same values are the same
/// elements.
pub proof fn lemma_permutation_deterministic<P: PoseidonHashParams>(
    p: &P,
    s1: Seq<Fr>,
    s2: Seq<Fr>,
    r1: Seq<Fr>,
    r2: Seq<Fr>,
)
    requires
        values(s1) == values(s2),
        all_wf(r1),
        all_wf(r2),
        r1.len() == s1.len(),
        r2.len() == s2.len(),
        values(r1) == permutation(p, values(s1)),
        values(r2) == permutation(p, values(s2)),
    ensures
        r1 == r2,
{
    assert(s1.len() == values(s1).len() && s2.len() == values(s2).len());
    assert(r1.len() == values(r1).len() && r2.len() == values(r2).len());
    assert forall|i: int| 0 <= i < r1.len() implies r1[i] == r2[i] by {
        assert(values(r1)[i] == r1[i].value());
        assert(values(r2)[i] == r2[i].value());
        lemma_value_injective(r1[i], r2[i]);
    }
    assert(r1 =~= r2);
}

} // verus!
