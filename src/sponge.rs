//! The absorb/squeeze state machine around the permutation, and the one-shot
//! hash built on it.
use vstd::prelude::*;
use vstd::slice::slice_to_vec;
use crate::batch::{all_wf, values};
use crate::field::{Fr, fadd, field_add, modulus};
use crate::params::{PoseidonHashParams, params_wf, state_width_of};
use crate::permutation::{permutation, poseidon_mimc, lemma_width_bounds};

verus! {

/// What the sponge holds besides its state: input not yet mixed in, or
/// output not yet handed out.
pub enum ModeModel {
    Absorbing(Seq<nat>),
    Squeezed(Seq<nat>),
}

/// The sponge as values: the permutation's state and the mode.
pub struct SpongeModel {
    pub state: Seq<nat>,
    pub mode: ModeModel,
}

/// `count` copies of the field's one.
pub open spec fn ones(count: nat) -> Seq<nat> {
    Seq::new(count, |i: int| 1nat)
}

/// `block` added into the first slots of `state`.
pub open spec fn add_block(state: Seq<nat>, block: Seq<nat>) -> Seq<nat> {
    Seq::new(state.len(), |i: int| if i < block.len() { fadd(state[i], block[i]) } else { state[i] })
}

/// A fresh sponge: zero state, nothing absorbed.
pub open spec fn initial_sponge<P: PoseidonHashParams>(p: &P) -> SpongeModel {
    SpongeModel { state: zeros(state_width_of(p)), mode: ModeModel::Absorbing(seq![]) }
}

/// Absorbing one value.
pub open spec fn absorb_step<P: PoseidonHashParams>(p: &P, s: SpongeModel, v: nat) -> SpongeModel {
    match s.mode {
        ModeModel::Absorbing(buf) => {
            if buf.len() < p.spec_rate() {
                SpongeModel { state: s.state, mode: ModeModel::Absorbing(buf.push(v)) }
            } else {
                SpongeModel {
                    state: permutation(p, add_block(s.state, buf)),
                    mode: ModeModel::Absorbing(seq![v]),
                }
            }
        },
        ModeModel::Squeezed(_) => SpongeModel { state: s.state, mode: ModeModel::Absorbing(seq![v]) },
    }
}

/// Absorbing the values of `input` one after the other.
pub open spec fn absorb_all<P: PoseidonHashParams>(p: &P, s: SpongeModel, input: Seq<nat>) -> SpongeModel
    decreases input.len(),
{
    if input.len() == 0 {
        s
    } else {
        absorb_step(p, absorb_all(p, s, input.drop_last()), input.last())
    }
}

/// How many ones pad an input of length `len` to a multiple of `rate`.
pub open spec fn padding_len(len: nat, rate: nat) -> nat {
    if len % rate == 0 {
        0
    } else {
        (rate - len % rate) as nat
    }
}

/// `input` padded with ones to a multiple of `rate`.
pub open spec fn padded(input: Seq<nat>, rate: nat) -> Seq<nat> {
    input + ones(padding_len(input.len(), rate))
}

/// Squeezing one value: the new sponge and the value.
pub open spec fn squeeze_step<P: PoseidonHashParams>(p: &P, s: SpongeModel) -> (SpongeModel, nat) {
    let rate = p.spec_rate() as int;
    match s.mode {
        ModeModel::Absorbing(buf) => {
            let block = buf + ones((rate - buf.len()) as nat);
            let st = permutation(p, add_block(s.state, block));
            (SpongeModel { state: st, mode: ModeModel::Squeezed(st.subrange(1, rate)) }, st[0])
        },
        ModeModel::Squeezed(pool) => {
            if pool.len() == 0 {
                let st = permutation(p, s.state);
                (SpongeModel { state: st, mode: ModeModel::Squeezed(st.subrange(1, rate)) }, st[0])
            } else {
                (SpongeModel { state: s.state, mode: ModeModel::Squeezed(pool.drop_first()) }, pool[0])
            }
        },
    }
}

/// Squeezing `n` values: the new sponge and the values, in order.
pub open spec fn squeeze_n<P: PoseidonHashParams>(p: &P, s: SpongeModel, n: nat) -> (SpongeModel, Seq<nat>)
    decreases n,
{
    if n == 0 {
        (s, seq![])
    } else {
        let (s1, out) = squeeze_n(p, s, (n - 1) as nat);
        let (s2, v) = squeeze_step(p, s1);
        (s2, out.push(v))
    }
}

/// A sponge model that a usable sponge can have: usable parameters, a state
/// of their width, at most `rate` buffered values, all canonical.
pub open spec fn sponge_model_wf<P: PoseidonHashParams>(p: &P, m: SpongeModel) -> bool {
    let buf = match m.mode {
        ModeModel::Absorbing(b) => b,
        ModeModel::Squeezed(b) => b,
    };
    &&& params_wf(p)
    &&& m.state.len() == state_width_of(p)
    &&& forall|i: int| 0 <= i < m.state.len() ==> #[trigger] m.state[i] < modulus()
    &&& buf.len() <= p.spec_rate()
    &&& forall|i: int| 0 <= i < buf.len() ==> #[trigger] buf[i] < modulus()
}

/// The sponge's buffers as the library holds them.
#[derive(Clone)]
enum OpMode {
    AccumulatingToAbsorb(Vec<Fr>),
    SqueezedInto(Vec<Fr>),
}

impl OpMode {
    spec fn view(&self) -> ModeModel {
        match self {
            OpMode::AccumulatingToAbsorb(b) => ModeModel::Absorbing(values(b@)),
            OpMode::SqueezedInto(b) => ModeModel::Squeezed(values(b@)),
        }
    }

    spec fn buffer(&self) -> Seq<Fr> {
        match self {
            OpMode::AccumulatingToAbsorb(b) => b@,
            OpMode::SqueezedInto(b) => b@,
        }
    }
}

/// A sponge over a parameter set that it borrows.
#[derive(Clone)]
pub struct StatefulSponge<'a, P: PoseidonHashParams> {
    params: &'a P,
    internal_state: Vec<Fr>,
    mode: OpMode,
}

impl<'a, P: PoseidonHashParams> StatefulSponge<'a, P> {
    pub closed spec fn spec_params(&self) -> &'a P {
        self.params
    }

    /// The sponge as values.
    pub closed spec fn model(&self) -> SpongeModel {
        SpongeModel { state: values(self.internal_state@), mode: self.mode.view() }
    }

    /// Usable parameters, a state of their width, a buffer of at most `rate`
    /// elements, all canonical.
    pub closed spec fn wf(&self) -> bool {
        &&& params_wf(self.params)
        &&& self.internal_state@.len() == state_width_of(self.params)
        &&& all_wf(self.internal_state@)
        &&& self.mode.buffer().len() <= self.params.spec_rate()
        &&& all_wf(self.mode.buffer())
    }

    /// What a usable sponge's model looks like.
    pub proof fn lemma_model_wf(&self)
        requires
            self.wf(),
        ensures
            sponge_model_wf(self.spec_params(), self.model()),
    {
        let b = self.mode.buffer();
        assert forall|i: int| 0 <= i < b.len() implies #[trigger] values(b)[i] < modulus() by {
            assert(b[i].wf());
        }
        assert forall|i: int| 0 <= i < self.internal_state@.len() implies #[trigger] values(self.internal_state@)[i] < modulus() by {
            assert(self.internal_state@[i].wf());
        }
    }

    pub fn new(params: &'a P) -> (r: Self)
        requires
            params_wf(params),
        ensures
            r.wf(),
            r.spec_params() == params,
            r.model() == initial_sponge(params),
    {
        proof {
            lemma_width_bounds(params);
        }
        let op = OpMode::AccumulatingToAbsorb(Vec::with_capacity(params.rate() as usize));
        let width = params.state_width() as usize;
        let mut internal_state: Vec<Fr> = Vec::with_capacity(width);
        let mut i: usize = 0;
        while i < width
            invariant
                i <= width,
                internal_state@.len() == i,
                all_wf(internal_state@),
                forall|j: int| 0 <= j < i ==> (#[trigger] internal_state@[j]).value() == 0,
            decreases width - i,
        {
            internal_state.push(Fr::zero());
            i = i + 1;
        }
        let r = Self { params, internal_state, mode: op };
        assert(r.model().state =~= initial_sponge(params).state);
        assert(r.model().mode == initial_sponge(params).mode) by {
            assert(values(r.mode.buffer()) =~= seq![]);
        }
        r
    }

    /// Absorbs `input` padded with ones to a multiple of the rate.
    pub fn absorb(&mut self, input: &[Fr])
        requires
            old(self).wf(),
            all_wf(input@),
        ensures
            final(self).wf(),
            final(self).spec_params() == old(self).spec_params(),
            final(self).model() == absorb_all(
                old(self).spec_params(),
                old(self).model(),
                padded(values(input@), old(self).spec_params().spec_rate() as nat),
            ),
    {
        let rate = self.params.rate() as usize;
        let padding_count = if input.len() % rate == 0 {
            0
        } else {
            rate - input.len() % rate
        };
        let ghost n = input@.len();
        assert(padding_count == padding_len(n, rate as nat));
        let ghost full = padded(values(input@), rate as nat);
        let ghost p = self.params;
        let ghost s0 = self.model();
        let mut i: usize = 0;
        while i < input.len()
            invariant
                self.wf(),
                self.spec_params() == p,
                all_wf(input@),
                i <= input@.len(),
                full == padded(values(input@), rate as nat),
                self.model() == absorb_all(p, s0, full.take(i as int)),
            decreases input@.len() - i,
        {
            self.absorb_single_value(input[i]);
            assert(full.take(i + 1).drop_last() =~= full.take(i as int));
            i = i + 1;
        }
        let one = Fr::one();
        let mut k: usize = 0;
        while k < padding_count
            invariant
                self.wf(),
                self.spec_params() == p,
                k <= padding_count,
                one.wf(),
                one.value() == 1,
                full.len() == n + padding_count,
                n == input@.len(),
                padding_count == padding_len(n, rate as nat),
                full == padded(values(input@), rate as nat),
                self.model() == absorb_all(p, s0, full.take(n + k)),
            decreases padding_count - k,
        {
            self.absorb_single_value(one);
            assert(full.take(n + k + 1).drop_last() =~= full.take(n + k));
            assert(values(input@).len() == n);
            assert(full[n + k] == ones(padding_count as nat)[k as int]);
            k = k + 1;
        }
        assert(full.take(n + padding_count) =~= full);
    }

    /// Squeezes one value.
    pub fn squeeze_out_single(&mut self) -> (r: Fr)
        requires
            old(self).wf(),
        ensures
            final(self).wf(),
            final(self).spec_params() == old(self).spec_params(),
            r.wf(),
            (final(self).model(), r.value()) == squeeze_step(old(self).spec_params(), old(self).model()),
    {
        let rate = self.params.rate() as usize;
        proof {
            lemma_width_bounds(self.params);
        }
        match &mut self.mode {
            OpMode::AccumulatingToAbsorb(into) => {
                let ghost buf = values(into@);
                let one = Fr::one();
                while into.len() < rate
                    invariant
                        all_wf(into@),
                        buf.len() <= into@.len() <= rate,
                        one.wf(),
                        one.value() == 1,
                        values(into@) == buf + ones((into@.len() - buf.len()) as nat),
                    decreases rate - into@.len(),
                {
                    let ghost before = values(into@);
                    into.push(one);
                    assert(values(into@) =~= before.push(1));
                    assert(values(into@) =~= buf + ones((into@.len() - buf.len()) as nat));
                }
                self.internal_state = add_and_permute(self.params, &self.internal_state, into);
                let mut sponge_output = slice_to_vec(&self.internal_state.as_slice()[0..rate]);
                let output = sponge_output.remove(0);
                assert(values(sponge_output@) =~= values(self.internal_state@).subrange(1, rate as int));
                self.mode = OpMode::SqueezedInto(sponge_output);
                output
            },
            OpMode::SqueezedInto(into) => {
                if into.len() == 0 {
                    self.internal_state = poseidon_mimc(self.params, self.internal_state.as_slice());
                    let mut sponge_output = slice_to_vec(&self.internal_state.as_slice()[0..rate]);
                    let output = sponge_output.remove(0);
                    assert(values(sponge_output@) =~= values(self.internal_state@).subrange(1, rate as int));
                    self.mode = OpMode::SqueezedInto(sponge_output);
                    output
                } else {
                    let output = into.remove(0);
                    assert(values(into@) =~= values(old(self).mode.buffer()).drop_first());
                    output
                }
            },
        }
    }

    /// Absorbs one value; after a squeeze, unread output is dropped.
    pub fn absorb_single_value(&mut self, value: Fr)
        requires
            old(self).wf(),
            value.wf(),
        ensures
            final(self).wf(),
            final(self).spec_params() == old(self).spec_params(),
            final(self).model() == absorb_step(old(self).spec_params(), old(self).model(), value.value()),
    {
        let rate = self.params.rate() as usize;
        match &mut self.mode {
            OpMode::AccumulatingToAbsorb(into) => {
                if into.len() < rate {
                    into.push(value);
                    assert(values(into@) =~= values(old(self).mode.buffer()).push(value.value()));
                } else {
                    self.internal_state = add_and_permute(self.params, &self.internal_state, into);
                    into.clear();
                    into.push(value);
                    assert(values(into@) =~= seq![value.value()]);
                }
            },
            OpMode::SqueezedInto(_) => {
                let mut s: Vec<Fr> = Vec::with_capacity(rate);
                s.push(value);
                assert(values(s@) =~= seq![value.value()]);
                self.mode = OpMode::AccumulatingToAbsorb(s);
            },
        }
    }
}

/// Hashes `input` into `capacity` field elements.
pub fn poseidon_hash<P: PoseidonHashParams>(params: &P, input: &[Fr]) -> (r: Vec<Fr>)
    requires
        params_wf(params),
        all_wf(input@),
    ensures
        all_wf(r@),
        r@.len() == params.spec_capacity(),
        values(r@) == one_shot_hash(params, values(input@)),
{
    sponge(params, input)
}

fn sponge<P: PoseidonHashParams>(params: &P, input: &[Fr]) -> (r: Vec<Fr>)
    requires
        params_wf(params),
        all_wf(input@),
    ensures
        all_wf(r@),
        r@.len() == params.spec_capacity(),
        values(r@) == one_shot_hash(params, values(input@)),
{
    let mut stateful = StatefulSponge::new(params);
    stateful.absorb(input);
    let ghost absorbed = stateful.model();
    let capacity = params.capacity();
    let mut output: Vec<Fr> = Vec::with_capacity(capacity as usize);
    let mut i: u32 = 0;
    while i < capacity
        invariant
            stateful.wf(),
            stateful.spec_params() == params,
            capacity == params.spec_capacity(),
            i <= capacity,
            output@.len() == i,
            all_wf(output@),
            (stateful.model(), values(output@)) == squeeze_n(params, absorbed, i as nat),
        decreases capacity - i,
    {
        let v = stateful.squeeze_out_single();
        output.push(v);
        assert(values(output@) =~= squeeze_n(params, absorbed, i as nat).1.push(v.value()));
        i = i + 1;
    }
    proof {
        lemma_sponge_matches_one_shot(params, values(input@));
    }
    output
}

/// `n` zeros.
pub open spec fn zeros(n: nat) -> Seq<nat> {
    Seq::new(n, |i: int| 0nat)
}

/// The state after the first `j` blocks of `data` (each `rate` long) have
/// each been added into the state and permuted, starting from `start`.
pub open spec fn absorb_blocks<P: PoseidonHashParams>(p: &P, start: Seq<nat>, data: Seq<nat>, j: nat) -> Seq<nat>
    decreases j,
{
    if j == 0 {
        start
    } else {
        let rate = p.spec_rate() as int;
        permutation(
            p,
            add_block(absorb_blocks(p, start, data, (j - 1) as nat), data.subrange((j - 1) * rate, j * rate)),
        )
    }
}

/// What the one-shot hash absorbs: the input padded with ones to a multiple
/// of the rate, and one block of ones for empty input.
pub open spec fn absorbed_data(input: Seq<nat>, rate: nat) -> Seq<nat> {
    if input.len() == 0 {
        ones(rate)
    } else {
        padded(input, rate)
    }
}

/// The state from which the one-shot hash reads its output: every block of
/// the absorbed data added in and permuted, from the zero state.
pub open spec fn one_shot_state<P: PoseidonHashParams>(p: &P, input: Seq<nat>) -> Seq<nat> {
    let data = absorbed_data(input, p.spec_rate() as nat);
    absorb_blocks(p, zeros(state_width_of(p)), data, data.len() / (p.spec_rate() as nat))
}

/// `s` permuted `k` times.
pub open spec fn permute_times<P: PoseidonHashParams>(p: &P, s: Seq<nat>, k: nat) -> Seq<nat>
    decreases k,
{
    if k == 0 {
        s
    } else {
        permutation(p, permute_times(p, s, (k - 1) as nat))
    }
}

/// The `i`-th value that a sponge squeezes from `state`: slot `i % rate`
/// after `i / rate` further permutations.
pub open spec fn squeezed_value<P: PoseidonHashParams>(p: &P, state: Seq<nat>, i: int) -> nat {
    let rate = p.spec_rate() as int;
    permute_times(p, state, (i / rate) as nat)[i % rate]
}

/// The one-shot hash of `input`, stated on blocks: the first `capacity`
/// values read `rate` at a time from the state after absorbing, permuting
/// between reads.
pub open spec fn one_shot_hash<P: PoseidonHashParams>(p: &P, input: Seq<nat>) -> Seq<nat> {
    Seq::new(p.spec_capacity() as nat, |i: int| squeezed_value(p, one_shot_state(p, input), i))
}

proof fn lemma_rounds_len<P: PoseidonHashParams>(p: &P, s: Seq<nat>, n: nat)
    requires
        s.len() >= 1,
    ensures
        crate::permutation::rounds(p, s, n).len() == s.len(),
    decreases n,
{
    if n > 0 {
        lemma_rounds_len(p, s, (n - 1) as nat);
        let r = (n - 1) as nat;
        let prev = crate::permutation::rounds(p, s, r);
        let t = prev.len();
        let with_constants = crate::permutation::add_constants(
            prev,
            values(p.spec_round_constants()).subrange((t * r) as int, (t * r + t) as int),
        );
        let layered = crate::permutation::sbox_layer(p.spec_sbox(), with_constants, crate::permutation::is_full_round(p, r));
        assert(layered.len() == t);
        assert(crate::permutation::mds_apply(values(p.spec_mds_matrix()), layered).len() == t);
    }
}

proof fn lemma_permute_times_len<P: PoseidonHashParams>(p: &P, s: Seq<nat>, k: nat)
    requires
        s.len() >= 1,
    ensures
        permute_times(p, s, k).len() == s.len(),
    decreases k,
{
    if k > 0 {
        lemma_permute_times_len(p, s, (k - 1) as nat);
        lemma_rounds_len(p, permute_times(p, s, (k - 1) as nat), crate::params::num_rounds_of(p));
    }
}

proof fn lemma_absorb_blocks_len<P: PoseidonHashParams>(p: &P, start: Seq<nat>, data: Seq<nat>, j: nat)
    requires
        start.len() >= 1,
    ensures
        absorb_blocks(p, start, data, j).len() == start.len(),
    decreases j,
{
    if j > 0 {
        lemma_absorb_blocks_len(p, start, data, (j - 1) as nat);
        let rate = p.spec_rate() as int;
        let prev = absorb_blocks(p, start, data, (j - 1) as nat);
        assert(add_block(prev, data.subrange((j - 1) * rate, j * rate)).len() == prev.len());
        lemma_rounds_len(p, add_block(prev, data.subrange((j - 1) * rate, j * rate)), crate::params::num_rounds_of(p));
    }
}

/// `k = q * rate + r` with `0 <= r < rate` names the quotient and remainder.
proof fn lemma_div_mod_of(k: int, rate: int, q: int, r: int)
    requires
        rate > 0,
        0 <= r < rate,
        k == q * rate + r,
    ensures
        k / rate == q,
        k % rate == r,
{
    vstd::arithmetic::div_mod::lemma_fundamental_div_mod_converse(k, rate, q, r);
}

/// Absorbing the first `k` values of block-aligned data from a fresh sponge
/// leaves the completed blocks before the last one absorbed and permuted,
/// and the rest of the data pending.
proof fn lemma_absorb_prefix<P: PoseidonHashParams>(p: &P, data: Seq<nat>, k: nat)
    requires
        params_wf(p),
        1 <= k <= data.len(),
    ensures
        ({
            let rate = p.spec_rate() as int;
            let q = (k - 1) / rate;
            absorb_all(p, initial_sponge(p), data.take(k as int)) == SpongeModel {
                state: absorb_blocks(p, zeros(state_width_of(p)), data, q as nat),
                mode: ModeModel::Absorbing(data.subrange(q * rate, k as int)),
            }
        }),
    decreases k,
{
    let rate = p.spec_rate() as int;
    let t = data.take(k as int);
    assert(t.drop_last() =~= data.take(k - 1));
    if k == 1 {
        assert(data.take(0) =~= seq![]);
        assert(0 == 0 * rate + 0) by (nonlinear_arith);
        lemma_div_mod_of(0, rate, 0, 0);
        assert(initial_sponge(p).mode == ModeModel::Absorbing(seq![]));
        assert(seq![].push(data[0]) =~= data.subrange(0, 1));
        assert(initial_sponge(p).state =~= zeros(state_width_of(p)));
    } else {
        let k1 = (k - 1) as nat;
        lemma_absorb_prefix(p, data, k1);
        let q1 = (k1 - 1) / rate;
        let r1 = (k1 - 1) % rate;
        vstd::arithmetic::div_mod::lemma_fundamental_div_mod(k1 - 1, rate);
        vstd::arithmetic::div_mod::lemma_mod_bound(k1 - 1, rate);
        assert(k1 - 1 == q1 * rate + r1) by {
            vstd::arithmetic::mul::lemma_mul_is_commutative(rate, q1);
        }
        let buf = data.subrange(q1 * rate, k1 as int);
        assert(buf.len() == r1 + 1);
        if r1 + 1 < rate {
            lemma_div_mod_of(k - 1, rate, q1, r1 + 1);
            assert(buf.push(data[k1 as int]) =~= data.subrange(q1 * rate, k as int));
        } else {
            assert((q1 + 1) * rate == q1 * rate + rate) by (nonlinear_arith);
            lemma_div_mod_of(k - 1, rate, q1 + 1, 0);
            assert(seq![data[k1 as int]] =~= data.subrange((q1 + 1) * rate, k as int));
        }
    }
}

/// `input` padded to the rate has a length that the rate divides, at least
/// that of `input`.
proof fn lemma_padded_len(input: Seq<nat>, rate: nat)
    requires
        rate >= 1,
    ensures
        padded(input, rate).len() % rate == 0,
        padded(input, rate).len() >= input.len(),
        padded(input, rate).len() < input.len() + rate,
{
    let n = input.len() as int;
    let r = rate as int;
    vstd::arithmetic::div_mod::lemma_fundamental_div_mod(n, r);
    vstd::arithmetic::div_mod::lemma_mod_bound(n, r);
    let q = n / r;
    let m = n % r;
    assert(n == q * r + m) by {
        vstd::arithmetic::mul::lemma_mul_is_commutative(r, q);
    }
    if m == 0 {
        lemma_div_mod_of(n, r, q, 0);
    } else {
        assert(n + (r - m) == (q + 1) * r) by {
            vstd::arithmetic::mul::lemma_mul_is_distributive_add_other_way(r, q, 1);
        }
        lemma_div_mod_of(n + (r - m), r, q + 1, 0);
    }
}

/// A fresh sponge that absorbed `input` squeezes first the first slot of the
/// one-shot state, and keeps the rest of its first `rate` slots.
proof fn lemma_first_squeeze<P: PoseidonHashParams>(p: &P, input: Seq<nat>)
    requires
        params_wf(p),
    ensures
        ({
            let s1 = one_shot_state(p, input);
            squeeze_step(p, absorb_all(p, initial_sponge(p), padded(input, p.spec_rate() as nat)))
                == (SpongeModel {
                state: s1,
                mode: ModeModel::Squeezed(s1.subrange(1, p.spec_rate() as int)),
            }, s1[0])
        }),
{
    let rate = p.spec_rate() as int;
    let t = state_width_of(p);
    if input.len() == 0 {
        vstd::arithmetic::div_mod::lemma_small_mod(0, rate as nat);
        assert(padded(input, rate as nat) =~= seq![]);
        assert(rate == 1 * rate + 0) by (nonlinear_arith);
        lemma_div_mod_of(rate, rate, 1, 0);
        assert(ones(rate as nat).subrange(0, rate) =~= ones(rate as nat));
        assert(seq![] + ones(rate as nat) =~= ones(rate as nat));
        assert(initial_sponge(p).state =~= zeros(t));
        assert(absorbed_data(input, rate as nat) == ones(rate as nat));
        assert(absorb_all(p, initial_sponge(p), padded(input, rate as nat)) == initial_sponge(p));
        assert(one_shot_state(p, input) == absorb_blocks(p, zeros(t), ones(rate as nat), 1));
        assert(absorb_blocks(p, zeros(t), ones(rate as nat), 0) == zeros(t));
        assert(one_shot_state(p, input) == permutation(p, add_block(zeros(t), ones(rate as nat))));
    } else {
        let data = padded(input, rate as nat);
        lemma_padded_len(input, rate as nat);
        let len = data.len() as int;
        vstd::arithmetic::div_mod::lemma_fundamental_div_mod(len, rate);
        let m = len / rate;
        assert(len == m * rate) by {
            vstd::arithmetic::mul::lemma_mul_is_commutative(rate, m);
        }
        assert(m >= 1) by (nonlinear_arith)
            requires
                len == m * rate,
                len >= 1,
                rate >= 1,
        ;
        assert(len - 1 == (m - 1) * rate + (rate - 1)) by {
            vstd::arithmetic::mul::lemma_mul_is_distributive_sub_other_way(rate, m, 1);
        }
        lemma_div_mod_of(len - 1, rate, m - 1, rate - 1);
        lemma_absorb_prefix(p, data, len as nat);
        assert(data.take(len) =~= data);
        let buf = data.subrange((m - 1) * rate, len);
        assert(buf + ones(0) =~= buf);
        assert(m * rate == (m - 1) * rate + rate) by {
            vstd::arithmetic::mul::lemma_mul_is_distributive_sub_other_way(rate, m, 1);
        }
        assert(absorbed_data(input, rate as nat) == data);
        assert(data.len() / (rate as nat) == m);
        let st = absorb_blocks(p, zeros(t), data, (m - 1) as nat);
        assert(absorb_all(p, initial_sponge(p), data) == SpongeModel { state: st, mode: ModeModel::Absorbing(buf) });
        assert(buf.len() == rate);
        assert(one_shot_state(p, input) == absorb_blocks(p, zeros(t), data, m as nat));
        assert(absorb_blocks(p, zeros(t), data, m as nat) == permutation(p, add_block(st, buf)));
    }
}

/// After `j >= 1` squeezes from a fresh sponge that absorbed `input`, the
/// values handed out are the first `j` of the one-shot stream.
proof fn lemma_squeeze_prefix<P: PoseidonHashParams>(p: &P, input: Seq<nat>, j: nat)
    requires
        params_wf(p),
        j >= 1,
    ensures
        ({
            let rate = p.spec_rate() as int;
            let s1 = one_shot_state(p, input);
            let tj = permute_times(p, s1, ((j - 1) / rate) as nat);
            squeeze_n(p, absorb_all(p, initial_sponge(p), padded(input, rate as nat)), j) == (SpongeModel {
                state: tj,
                mode: ModeModel::Squeezed(tj.subrange((j - 1) % rate + 1, rate)),
            }, Seq::new(j, |i: int| squeezed_value(p, s1, i)))
        }),
    decreases j,
{
    let rate = p.spec_rate() as int;
    let s0 = absorb_all(p, initial_sponge(p), padded(input, rate as nat));
    let s1 = one_shot_state(p, input);
    let t = state_width_of(p);
    lemma_absorb_blocks_len(p, zeros(t), absorbed_data(input, rate as nat), absorbed_data(input, rate as nat).len() / (rate as nat));
    assert(s1.len() == t);
    if j == 1 {
        lemma_first_squeeze(p, input);
        assert(0 == 0 * rate + 0) by (nonlinear_arith);
        lemma_div_mod_of(0, rate, 0, 0);
        assert(squeeze_n(p, s0, 0) == (s0, Seq::<nat>::empty()));
        assert(permute_times(p, s1, 0) == s1);
        assert(seq![].push(s1[0]) =~= Seq::new(1, |i: int| squeezed_value(p, s1, i)));
    } else {
        let j1 = (j - 1) as nat;
        lemma_squeeze_prefix(p, input, j1);
        let a = (j1 - 1) / rate;
        let b = (j1 - 1) % rate;
        vstd::arithmetic::div_mod::lemma_fundamental_div_mod(j1 - 1, rate);
        vstd::arithmetic::div_mod::lemma_mod_bound(j1 - 1, rate);
        assert(j1 - 1 == a * rate + b) by {
            vstd::arithmetic::mul::lemma_mul_is_commutative(rate, a);
        }
        let tj1 = permute_times(p, s1, a as nat);
        lemma_permute_times_len(p, s1, a as nat);
        let prev = squeeze_n(p, s0, j1);
        assert(prev.0 == SpongeModel { state: tj1, mode: ModeModel::Squeezed(tj1.subrange(b + 1, rate)) });
        if b + 1 < rate {
            lemma_div_mod_of(j1 as int, rate, a, b + 1);
            assert(tj1.subrange(b + 1, rate).drop_first() =~= tj1.subrange(b + 2, rate));
            assert(squeeze_step(p, prev.0) == (SpongeModel {
                state: tj1,
                mode: ModeModel::Squeezed(tj1.subrange(b + 2, rate)),
            }, tj1[b + 1]));
            assert(squeezed_value(p, s1, j1 as int) == tj1[b + 1]);
            assert(prev.1.push(tj1[b + 1]) =~= Seq::new(j, |i: int| squeezed_value(p, s1, i)));
        } else {
            assert((a + 1) * rate == a * rate + rate) by (nonlinear_arith);
            lemma_div_mod_of(j1 as int, rate, a + 1, 0);
            assert(tj1.subrange(b + 1, rate) =~= seq![]);
            let tj = permute_times(p, s1, (a + 1) as nat);
            assert(tj == permutation(p, tj1));
            assert(squeeze_step(p, prev.0) == (SpongeModel {
                state: tj,
                mode: ModeModel::Squeezed(tj.subrange(1, rate)),
            }, tj[0]));
            assert(squeezed_value(p, s1, j1 as int) == tj[0]);
            assert(prev.1.push(tj[0]) =~= Seq::new(j, |i: int| squeezed_value(p, s1, i)));
        }
    }
}

/// The absorb/squeeze state machine computes the one-shot hash: a fresh
/// sponge that absorbs `input` and is then squeezed `capacity` times hands
/// out exactly `one_shot_hash(p, input)`.
pub proof fn lemma_sponge_matches_one_shot<P: PoseidonHashParams>(p: &P, input: Seq<nat>)
    requires
        params_wf(p),
    ensures
        squeeze_n(
            p,
            absorb_all(p, initial_sponge(p), padded(input, p.spec_rate() as nat)),
            p.spec_capacity() as nat,
        ).1 == one_shot_hash(p, input),
{
    lemma_squeeze_prefix(p, input, p.spec_capacity() as nat);
    assert(Seq::new(p.spec_capacity() as nat, |i: int| squeezed_value(p, one_shot_state(p, input), i))
        =~= one_shot_hash(p, input));
}

/// Input whose length is a multiple of the rate is not padded; input one
/// longer than the rate is padded with `rate - 1` ones.
pub proof fn lemma_padding(input: Seq<nat>, rate: nat)
    requires
        rate >= 1,
    ensures
        input.len() % rate == 0 ==> padded(input, rate) == input,
        input.len() == rate + 1 ==> padded(input, rate) == input + ones((rate - 1) as nat),
{
    if input.len() % rate == 0 {
        assert(padded(input, rate) =~= input);
    }
    if input.len() == rate + 1 {
        if rate == 1 {
            assert(input.len() % rate == 0);
            assert(padded(input, rate) =~= input + ones(0));
        } else {
            vstd::arithmetic::div_mod::lemma_mod_add_multiples_vanish(1, rate as int);
            vstd::arithmetic::div_mod::lemma_small_mod(1, rate);
            assert(input.len() % rate == 1);
        }
    }
}

/// After a squeeze, absorbing a value drops what was left to squeeze: the
/// sponge then holds exactly that value as pending input, on the state the
/// squeeze left.
pub proof fn lemma_absorb_after_squeeze_discards<P: PoseidonHashParams>(p: &P, s: SpongeModel, v: nat)
    ensures
        absorb_step(p, squeeze_step(p, s).0, v) == (SpongeModel {
            state: squeeze_step(p, s).0.state,
            mode: ModeModel::Absorbing(seq![v]),
        }),
{
}

/// `block` added into the first slots of `state`, then permuted.
fn add_and_permute<P: PoseidonHashParams>(params: &P, state: &Vec<Fr>, block: &Vec<Fr>) -> (r: Vec<Fr>)
    requires
        params_wf(params),
        state@.len() == state_width_of(params),
        all_wf(state@),
        block@.len() <= params.spec_rate(),
        all_wf(block@),
    ensures
        r@.len() == state@.len(),
        all_wf(r@),
        values(r@) == permutation(params, add_block(values(state@), values(block@))),
{
    let mut mixed = state.clone();
    assert(mixed@ =~= state@);
    let mut i: usize = 0;
    while i < block.len()
        invariant
            mixed@.len() == state@.len(),
            block@.len() <= state@.len(),
            all_wf(mixed@),
            all_wf(state@),
            all_wf(block@),
            i <= block@.len(),
            forall|j: int| 0 <= j < i ==> (#[trigger] mixed@[j]).value() == fadd(state@[j].value(), block@[j].value()),
            forall|j: int| i <= j < mixed@.len() ==> mixed@[j] == state@[j],
        decreases block@.len() - i,
    {
        let v = field_add(&mixed[i], &block[i]);
        mixed[i] = v;
        i = i + 1;
    }
    assert(values(mixed@) =~= add_block(values(state@), values(block@)));
    poseidon_mimc(params, mixed.as_slice())
}

} // verus!
