//! The MDS matrix: a Cauchy matrix over field elements drawn from a seeded
//! generator, redrawn until they are pairwise distinct.
use vstd::prelude::*;
use vstd::slice::slice_to_vec;
use rand::{Rng, SeedableRng};
use rand::chacha::ChaChaRng;
use pairing_ce::bn256::Fr as BnFr;
use pairing_ce::ff::PrimeField;
use crate::batch::{all_wf, values, batch_inversion};
use crate::field::{Fr, fsub, finv, field_sub, lemma_value_injective};

verus! {

/// How many times the candidates are drawn before generation gives up.
/// Candidates repeat a value with probability about `(2t)² / 2²⁵⁴`, so the
/// bound is never reached in practice; it is there so that generation
/// provably ends.
pub const MDS_SAMPLING_ATTEMPTS: u32 = 16;

/// The `i`-th field element that a ChaCha generator seeded with `seed` yields.
pub uninterp spec fn chacha_field_element(seed: Seq<u32>, i: nat) -> nat;

/// Relies on rand's `ChaChaRng::from_seed` and on pairing_ce's `Rand` for the
/// bn256 `Fr` (rejection sampling of canonical elements): the first `count`
/// elements drawn from a generator seeded with `seed`, each of which depends
/// on the seed and its position alone.
#[verifier::external_body]
fn seeded_field_elements(seed: &[u32; 8], count: usize) -> (r: Vec<Fr>)
    ensures
        r@.len() == count,
        forall|i: int|
            0 <= i < count ==> (#[trigger] r@[i]).wf() && r@[i].value() == chacha_field_element(
                seed@,
                i as nat,
            ),
{
    let mut rng = ChaChaRng::from_seed(&seed[..]);
    let mut out = Vec::with_capacity(count);
    for _ in 0..count {
        let l = rng.gen::<BnFr>().into_repr().0;
        out.push(Fr { l0: l[0], l1: l[1], l2: l[2], l3: l[3] });
    }
    out
}

/// The `x` candidates of attempt `k`.
pub open spec fn candidates_x(seed: Seq<u32>, t: nat, k: nat) -> Seq<nat> {
    Seq::new(t, |i: int| chacha_field_element(seed, 2 * t * k + i as nat))
}

/// The `y` candidates of attempt `k`, drawn right after the `x` ones.
pub open spec fn candidates_y(seed: Seq<u32>, t: nat, k: nat) -> Seq<nat> {
    Seq::new(t, |i: int| chacha_field_element(seed, 2 * t * k + t + i as nat))
}

/// No value occurs twice in `x`, twice in `y`, or in both.
pub open spec fn pairwise_distinct(x: Seq<nat>, y: Seq<nat>) -> bool {
    &&& forall|i: int, j: int| 0 <= i < j < x.len() ==> x[i] != x[j]
    &&& forall|i: int, j: int| 0 <= i < j < y.len() ==> y[i] != y[j]
    &&& forall|i: int, j: int| 0 <= i < x.len() && 0 <= j < y.len() ==> x[i] != y[j]
}

/// The first attempt from `k` on whose candidates are pairwise distinct.
pub open spec fn first_good_attempt(seed: Seq<u32>, t: nat, k: nat) -> Option<nat>
    decreases MDS_SAMPLING_ATTEMPTS - k,
{
    if k >= MDS_SAMPLING_ATTEMPTS {
        None
    } else if pairwise_distinct(candidates_x(seed, t, k), candidates_y(seed, t, k)) {
        Some(k)
    } else {
        first_good_attempt(seed, t, k + 1)
    }
}

/// The matrix with entry `(i, j)` the inverse of `x[i] - y[j]`, row by row.
pub open spec fn cauchy_inverse(x: Seq<nat>, y: Seq<nat>) -> Seq<nat> {
    Seq::new(x.len() * y.len(), |k: int| finv(fsub(x[k / y.len() as int], y[k % y.len() as int])))
}

/// The MDS matrix of width `t` that the seed gives, if an attempt succeeds.
pub open spec fn mds_from_seed(seed: Seq<u32>, t: nat) -> Option<Seq<nat>> {
    match first_good_attempt(seed, t, 0) {
        Some(k) => Some(cauchy_inverse(candidates_x(seed, t, k), candidates_y(seed, t, k))),
        None => None,
    }
}

/// Some element of `v` from position `from` on has the value of `el`.
fn contains_from(v: &Vec<Fr>, el: &Fr, from: usize) -> (r: bool)
    ensures
        r == exists|j: int| from <= j < v@.len() && v@[j].value() == el.value(),
{
    let mut j: usize = from;
    while j < v.len()
        invariant
            from <= j,
            forall|k: int| from <= k < j ==> v@[k].value() != el.value(),
        decreases v@.len() - j,
    {
        if v[j] == *el {
            proof {
                lemma_value_injective(v@[j as int], *el);
            }
            return true;
        }
        proof {
            lemma_value_injective(v@[j as int], *el);
        }
        j = j + 1;
    }
    false
}

fn check_distinct(x: &Vec<Fr>, y: &Vec<Fr>) -> (r: bool)
    ensures
        r == pairwise_distinct(values(x@), values(y@)),
{
    let ghost xv = values(x@);
    let ghost yv = values(y@);
    let mut i: usize = 0;
    while i < x.len()
        invariant
            xv == values(x@),
            forall|a: int, b: int| 0 <= a < i && a < b < xv.len() ==> xv[a] != xv[b],
        decreases x@.len() - i,
    {
        if contains_from(x, &x[i], i + 1) {
            proof {
                let j = choose|j: int| i + 1 <= j < x@.len() && x@[j].value() == x@[i as int].value();
                assert(xv[i as int] == xv[j]);
            }
            return false;
        }
        i = i + 1;
    }
    let mut i: usize = 0;
    while i < y.len()
        invariant
            yv == values(y@),
            forall|a: int, b: int| 0 <= a < i && a < b < yv.len() ==> yv[a] != yv[b],
        decreases y@.len() - i,
    {
        if contains_from(y, &y[i], i + 1) {
            proof {
                let j = choose|j: int| i + 1 <= j < y@.len() && y@[j].value() == y@[i as int].value();
                assert(yv[i as int] == yv[j]);
            }
            return false;
        }
        i = i + 1;
    }
    let mut i: usize = 0;
    while i < x.len()
        invariant
            xv == values(x@),
            yv == values(y@),
            forall|a: int, b: int| 0 <= a < xv.len() && a < b < xv.len() ==> xv[a] != xv[b],
            forall|a: int, b: int| 0 <= a < yv.len() && a < b < yv.len() ==> yv[a] != yv[b],
            forall|a: int, b: int| 0 <= a < i && 0 <= b < yv.len() ==> xv[a] != yv[b],
        decreases x@.len() - i,
    {
        if contains_from(y, &x[i], 0) {
            proof {
                let j = choose|j: int| 0 <= j < y@.len() && y@[j].value() == x@[i as int].value();
                assert(xv[i as int] == yv[j]);
            }
            return false;
        }
        i = i + 1;
    }
    true
}

/// Entry `(i, j)` is `x[i] - y[j]`, row by row.
fn cauchy_differences(x: &Vec<Fr>, y: &Vec<Fr>) -> (r: Vec<Fr>)
    requires
        x@.len() == y@.len(),
        x@.len() * y@.len() <= u32::MAX,
        all_wf(x@),
        all_wf(y@),
    ensures
        r@.len() == x@.len() * y@.len(),
        all_wf(r@),
        forall|k: int|
            0 <= k < r@.len() ==> (#[trigger] r@[k]).value() == fsub(
                x@[k / y@.len() as int].value(),
                y@[k % y@.len() as int].value(),
            ),
{
    let t = x.len();
    let mut m: Vec<Fr> = Vec::with_capacity(t * t);
    let mut i: usize = 0;
    while i < t
        invariant
            t == x@.len(),
            t == y@.len(),
            t * t <= u32::MAX,
            all_wf(x@),
            all_wf(y@),
            i <= t,
            m@.len() == i * t,
            all_wf(m@),
            forall|k: int|
                0 <= k < m@.len() ==> (#[trigger] m@[k]).value() == fsub(
                    x@[k / t as int].value(),
                    y@[k % t as int].value(),
                ),
        decreases t - i,
    {
        let mut j: usize = 0;
        while j < t
            invariant
                t == x@.len(),
                t == y@.len(),
                t * t <= u32::MAX,
                all_wf(x@),
                all_wf(y@),
                i < t,
                j <= t,
                m@.len() == i * t + j,
                all_wf(m@),
                forall|k: int|
                    0 <= k < m@.len() ==> (#[trigger] m@[k]).value() == fsub(
                        x@[k / t as int].value(),
                        y@[k % t as int].value(),
                    ),
            decreases t - j,
        {
            proof {
                assert(i * t + j < t * t) by (nonlinear_arith)
                    requires
                        i < t,
                        j < t,
                ;
                vstd::arithmetic::div_mod::lemma_fundamental_div_mod_converse(
                    (i * t + j) as int,
                    t as int,
                    i as int,
                    j as int,
                );
            }
            m.push(field_sub(&x[i], &y[j]));
            j = j + 1;
        }
        proof {
            assert(i * t + t == (i + 1) * t) by (nonlinear_arith);
        }
        i = i + 1;
    }
    m
}

/// A `t` by `t` MDS matrix from a generator seeded with `seed`: draw `t`
/// candidates `x` and `t` candidates `y`, draw again while they are not
/// pairwise distinct, then invert every `x[i] - y[j]`. Every attempt
/// continues the one stream of the seed.
pub fn generate_mds_matrix(t: u32, seed: &[u32; 8]) -> (r: Option<Vec<Fr>>)
    requires
        1 <= t,
        t * t <= u32::MAX,
    ensures
        r.is_some() <==> mds_from_seed(seed@, t as nat).is_some(),
        r.is_some() ==> all_wf(r.unwrap()@) && values(r.unwrap()@) == mds_from_seed(
            seed@,
            t as nat,
        ).unwrap(),
{
    proof {
        assert(t <= 0xffff) by (nonlinear_arith)
            requires
                1 <= t,
                t * t <= u32::MAX,
        ;
    }
    let width = t as usize;
    let mut attempt: u32 = 0;
    while attempt < MDS_SAMPLING_ATTEMPTS
        invariant
            1 <= t <= 0xffff,
            width == t,
            t * t <= u32::MAX,
            attempt <= MDS_SAMPLING_ATTEMPTS,
            first_good_attempt(seed@, t as nat, 0) == first_good_attempt(seed@, t as nat, attempt as nat),
        decreases MDS_SAMPLING_ATTEMPTS - attempt,
    {
        proof {
            assert(2 * width * attempt + 2 * width <= 2 * 0xffff * 16) by (nonlinear_arith)
                requires
                    width <= 0xffff,
                    attempt < 16,
            ;
        }
        let start = 2 * width * (attempt as usize);
        let draws = seeded_field_elements(seed, start + 2 * width);
        let x = slice_to_vec(&draws.as_slice()[start..start + width]);
        let y = slice_to_vec(&draws.as_slice()[start + width..start + 2 * width]);
        let ghost tn = t as nat;
        assert(values(x@) =~= candidates_x(seed@, tn, attempt as nat));
        assert(values(y@) =~= candidates_y(seed@, tn, attempt as nat));
        if check_distinct(&x, &y) {
            let mut mds_matrix = cauchy_differences(&x, &y);
            let ghost diffs = mds_matrix@;
            batch_inversion(mds_matrix.as_mut_slice());
            let ghost cv = cauchy_inverse(values(x@), values(y@));
            assert(values(x@).len() == width && values(y@).len() == width);
            assert forall|k: int| 0 <= k < mds_matrix@.len() implies values(mds_matrix@)[k] == cv[k] by {
                assert(mds_matrix@[k].value() == finv(diffs[k].value()));
                let w = width as int;
                vstd::arithmetic::div_mod::lemma_fundamental_div_mod(k, w);
                vstd::arithmetic::div_mod::lemma_mod_bound(k, w);
                assert((k / w) < w) by (nonlinear_arith)
                    requires
                        0 <= k < w * w,
                        w > 0,
                        k == w * (k / w) + k % w,
                        0 <= k % w,
                ;
            }
            assert(values(mds_matrix@) =~= cv);
            return Some(mds_matrix);
        }
        attempt = attempt + 1;
    }
    None
}

} // verus!
