//! The nonlinear layer of the permutation: power maps and inversion, applied
//! to every element of a slice.
use vstd::prelude::*;
use crate::batch::{all_wf, batch_inversion};
use crate::field::{
    Fr, fpow, finv, limbs_value, modulus, field_mul, field_square, field_pow,
    lemma_fpow_adds, lemma_fpow_small, lemma_fpow_square, lemma_fpow_of_fpow,
};

verus! {

/// A map applied to each field element on its own.
pub trait SBox: Sized + Clone {
    /// The configuration is usable.
    spec fn wf(&self) -> bool;

    /// What the map does to one canonical value.
    spec fn map_value(&self, x: nat) -> nat;

    fn apply(&self, elements: &mut [Fr])
        requires
            self.wf(),
            all_wf(old(elements)@),
        ensures
            final(elements)@.len() == old(elements)@.len(),
            all_wf(final(elements)@),
            forall|i: int|
                0 <= i < old(elements)@.len() ==> (#[trigger] final(elements)@[i]).value()
                    == self.map_value(old(elements)@[i].value()),
    ;
}

/// `x ↦ x³`.
#[derive(Clone, Copy, Debug, PartialEq, Eq, Structural)]
pub struct CubicSBox;

impl SBox for CubicSBox {
    open spec fn wf(&self) -> bool {
        true
    }

    open spec fn map_value(&self, x: nat) -> nat {
        fpow(x, 3)
    }

    fn apply(&self, elements: &mut [Fr]) {
        let n = elements.len();
        let ghost orig = elements@;
        let mut i: usize = 0;
        while i < n
            invariant
                n == elements@.len(),
                n == orig.len(),
                all_wf(elements@),
                all_wf(orig),
                i <= n,
                forall|j: int| i <= j < n ==> elements@[j] == orig[j],
                forall|j: int|
                    0 <= j < i ==> (#[trigger] elements@[j]).value() == fpow(orig[j].value(), 3),
            decreases n - i,
        {
            let x = elements[i];
            let squared = field_square(&x);
            proof {
                lemma_fpow_small(x.value());
                lemma_fpow_adds(x.value(), 1, 1);
                lemma_fpow_adds(x.value(), 1, 2);
            }
            elements[i] = field_mul(&x, &squared);
            i = i + 1;
        }
    }
}

/// `x ↦ x⁵`.
#[derive(Clone, Copy, Debug, PartialEq, Eq, Structural)]
pub struct QuinticSBox;

impl SBox for QuinticSBox {
    open spec fn wf(&self) -> bool {
        true
    }

    open spec fn map_value(&self, x: nat) -> nat {
        fpow(x, 5)
    }

    fn apply(&self, elements: &mut [Fr]) {
        let n = elements.len();
        let ghost orig = elements@;
        let mut i: usize = 0;
        while i < n
            invariant
                n == elements@.len(),
                n == orig.len(),
                all_wf(elements@),
                all_wf(orig),
                i <= n,
                forall|j: int| i <= j < n ==> elements@[j] == orig[j],
                forall|j: int|
                    0 <= j < i ==> (#[trigger] elements@[j]).value() == fpow(orig[j].value(), 5),
            decreases n - i,
        {
            let x = elements[i];
            let mut quad = field_square(&x);
            quad = field_square(&quad);
            proof {
                lemma_fpow_small(x.value());
                lemma_fpow_adds(x.value(), 1, 1);
                lemma_fpow_square(x.value(), 2);
                lemma_fpow_adds(x.value(), 1, 4);
            }
            elements[i] = field_mul(&x, &quad);
            i = i + 1;
        }
    }
}

/// `x ↦ x⁻¹`, with zero left as it is.
#[derive(Clone, Copy, Debug, PartialEq, Eq, Structural)]
pub struct InversionSBox;

impl SBox for InversionSBox {
    open spec fn wf(&self) -> bool {
        true
    }

    open spec fn map_value(&self, x: nat) -> nat {
        finv(x)
    }

    fn apply(&self, elements: &mut [Fr]) {
        batch_inversion(elements);
    }
}


/// The exponent that the windowed evaluation has accumulated before the
/// `i`-th window is added, for `i >= 1`.
pub open spec fn window_acc(idx: Seq<usize>, i: nat) -> nat
    decreases i,
{
    if i <= 1 {
        (16 * idx[0]) as nat
    } else {
        (16 * (window_acc(idx, (i - 1) as nat) + idx[i - 1])) as nat
    }
}

/// The exponent that a sequence of 4-bit windows, most significant first,
/// stands for in the windowed evaluation.
pub open spec fn window_exponent(idx: Seq<usize>) -> nat {
    let bound = (idx.len() - 1) as nat;
    (window_acc(idx, if bound == 0 { 1 } else { bound }) + idx[bound as int]) as nat
}

/// `x ↦ x^power`, evaluated either by square-and-multiply over the bits of
/// `power`, or, when `precomputed_indexes` is not empty, over 4-bit windows of
/// the exponent with a table of the first sixteen powers.
#[derive(Clone, Debug)]
pub struct PowerSBox {
    /// The exponent, as little-endian 64-bit limbs.
    pub power: [u64; 4],
    pub precomputed_indexes: Vec<usize>,
    pub inv: u64,
}

impl SBox for PowerSBox {
    /// Where windows are given, they are 4-bit and the exponent they stand
    /// for gives the same power map on the field as `power`.
    open spec fn wf(&self) -> bool {
        self.precomputed_indexes@.len() > 0 ==> {
            &&& forall|i: int|
                0 <= i < self.precomputed_indexes@.len() ==> #[trigger] self.precomputed_indexes@[i]
                    < 16
            &&& forall|x: nat|
                x < modulus() ==> #[trigger] fpow(x, window_exponent(self.precomputed_indexes@))
                    == fpow(x, limbs_value(self.power[0], self.power[1], self.power[2], self.power[3]))
        }
    }

    open spec fn map_value(&self, x: nat) -> nat {
        fpow(x, limbs_value(self.power[0], self.power[1], self.power[2], self.power[3]))
    }

    fn apply(&self, elements: &mut [Fr]) {
        let n = elements.len();
        let ghost orig = elements@;
        let ghost e = limbs_value(self.power[0], self.power[1], self.power[2], self.power[3]);
        let mut i: usize = 0;
        while i < n
            invariant
                n == elements@.len(),
                n == orig.len(),
                all_wf(elements@),
                all_wf(orig),
                self.wf(),
                e == limbs_value(self.power[0], self.power[1], self.power[2], self.power[3]),
                i <= n,
                forall|j: int| i <= j < n ==> elements@[j] == orig[j],
                forall|j: int|
                    0 <= j < i ==> (#[trigger] elements@[j]).value() == fpow(orig[j].value(), e),
            decreases n - i,
        {
            let x = elements[i];
            if self.precomputed_indexes.len() != 0 {
                let w = windowed_power(&x, &self.precomputed_indexes);
                assert(fpow(x.value(), window_exponent(self.precomputed_indexes@)) == fpow(x.value(), e));
                elements[i] = w;
            } else {
                elements[i] = field_pow(&x, &self.power);
            }
            i = i + 1;
        }
    }
}

/// `r` raised to the sixteenth power, by four squarings.
fn pow16(r: &Fr) -> (s: Fr)
    requires
        r.wf(),
    ensures
        s.wf(),
        s.value() == fpow(r.value(), 16),
{
    let a = field_square(r);
    let b = field_square(&a);
    let c = field_square(&b);
    let d = field_square(&c);
    proof {
        lemma_fpow_small(r.value());
        lemma_fpow_square(r.value(), 1);
        lemma_fpow_square(r.value(), 2);
        lemma_fpow_square(r.value(), 4);
        lemma_fpow_square(r.value(), 8);
    }
    d
}

/// `x` raised to `window_exponent(idx)`.
fn windowed_power(x: &Fr, idx: &Vec<usize>) -> (r: Fr)
    requires
        x.wf(),
        idx@.len() > 0,
        forall|i: int| 0 <= i < idx@.len() ==> #[trigger] idx@[i] < 16,
    ensures
        r.wf(),
        r.value() == fpow(x.value(), window_exponent(idx@)),
{
    let ghost xv = x.value();
    // the powers x^0 .. x^15
    let mut table: Vec<Fr> = Vec::with_capacity(16);
    table.push(Fr::one());
    table.push(*x);
    let mut current = *x;
    proof {
        lemma_fpow_small(xv);
    }
    let mut k: usize = 2;
    while k < 16
        invariant
            x.wf(),
            xv == x.value(),
            2 <= k <= 16,
            table@.len() == k,
            current.wf(),
            current.value() == fpow(xv, (k - 1) as nat),
            forall|j: int| 0 <= j < k ==> (#[trigger] table@[j]).wf() && table@[j].value() == fpow(xv, j as nat),
        decreases 16 - k,
    {
        current = field_mul(&current, x);
        proof {
            lemma_fpow_small(xv);
            lemma_fpow_adds(xv, (k - 1) as nat, 1);
        }
        table.push(current);
        k = k + 1;
    }
    let bound = idx.len() - 1;
    let mut result = pow16(&table[idx[0]]);
    proof {
        lemma_fpow_of_fpow(xv, idx@[0] as nat, 16);
    }
    let mut w: usize = 1;
    while w < bound
        invariant
            1 <= w,
            w <= bound || bound == 0,
            bound == 0 ==> w == 1,
            bound == idx@.len() - 1,
            forall|i: int| 0 <= i < idx@.len() ==> #[trigger] idx@[i] < 16,
            table@.len() == 16,
            forall|j: int| 0 <= j < 16 ==> (#[trigger] table@[j]).wf() && table@[j].value() == fpow(xv, j as nat),
            result.wf(),
            result.value() == fpow(xv, window_acc(idx@, w as nat)),
        decreases bound - w,
    {
        let t = field_mul(&result, &table[idx[w]]);
        proof {
            lemma_fpow_adds(xv, window_acc(idx@, w as nat), idx@[w as int] as nat);
        }
        result = pow16(&t);
        proof {
            lemma_fpow_of_fpow(xv, (window_acc(idx@, w as nat) + idx@[w as int]) as nat, 16);
        }
        w = w + 1;
    }
    let r = field_mul(&result, &table[idx[bound]]);
    proof {
        assert(w as nat == if bound == 0 { 1nat } else { bound as nat });
        lemma_fpow_adds(xv, window_acc(idx@, w as nat), idx@[bound as int] as nat);
    }
    r
}

} // verus!
