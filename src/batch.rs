//! Inversion of many field elements at the cost of one inversion
//! (Montgomery's trick).
use vstd::prelude::*;
use crate::field::{Fr, fmul, finv, modulus, field_mul, field_inverse, lemma_fmul_comm, lemma_fmul_assoc, lemma_inverse_unique, lemma_inverse_of_zero};

verus! {

/// The canonical values of a sequence of field elements.
pub open spec fn values(s: Seq<Fr>) -> Seq<nat> {
    s.map_values(|x: Fr| x.value())
}

/// Every element of the sequence is canonical.
pub open spec fn all_wf(s: Seq<Fr>) -> bool {
    forall|i: int| 0 <= i < s.len() ==> (#[trigger] s[i]).wf()
}

/// The product of the nonzero values among the first `k` of `s`.
pub open spec fn nonzero_prefix_product(s: Seq<nat>, k: nat) -> nat
    decreases k,
{
    if k == 0 {
        1
    } else if s[k - 1] == 0 {
        nonzero_prefix_product(s, (k - 1) as nat)
    } else {
        fmul(nonzero_prefix_product(s, (k - 1) as nat), s[k - 1])
    }
}

proof fn lemma_prefix_product_canonical(s: Seq<nat>, k: nat)
    ensures
        nonzero_prefix_product(s, k) < modulus(),
    decreases k,
{
    if k > 0 {
        lemma_prefix_product_canonical(s, (k - 1) as nat);
    }
}

/// Replaces every nonzero element by its inverse; zero elements stay zero.
pub fn batch_inversion(v: &mut [Fr])
    requires
        all_wf(old(v)@),
    ensures
        final(v)@.len() == old(v)@.len(),
        all_wf(final(v)@),
        forall|i: int|
            0 <= i < old(v)@.len() ==> (#[trigger] final(v)@[i]).value() == finv(
                old(v)@[i].value(),
            ),
        forall|i: int|
            0 <= i < old(v)@.len() && old(v)@[i].value() != 0 ==> fmul(
                (#[trigger] final(v)@[i]).value(),
                old(v)@[i].value(),
            ) == 1,
        forall|i: int|
            0 <= i < old(v)@.len() && old(v)@[i].value() == 0 ==> #[trigger] final(v)@[i] == old(v)@[i],
{
    let ghost vals = values(v@);
    let n = v.len();
    // products of the nonzero elements before each position
    let mut prod: Vec<Fr> = Vec::with_capacity(n);
    let mut tmp = Fr::one();
    let mut i: usize = 0;
    while i < n
        invariant
            n == v@.len(),
            vals == values(v@),
            all_wf(v@),
            i <= n,
            prod@.len() == i,
            all_wf(prod@),
            tmp.wf(),
            tmp.value() == nonzero_prefix_product(vals, i as nat),
            forall|j: int| 0 <= j < i ==> (#[trigger] prod@[j]).value() == nonzero_prefix_product(vals, j as nat),
        decreases n - i,
    {
        prod.push(tmp);
        if !v[i].is_zero() {
            tmp = field_mul(&tmp, &v[i]);
        }
        i = i + 1;
    }
    match field_inverse(&tmp) {
        Some(inv) => {
            let mut acc = inv;
            let ghost orig = v@;
            let mut k: usize = n;
            while k > 0
                invariant
                    n == v@.len(),
                    n == orig.len(),
                    vals == values(orig),
                    all_wf(v@),
                    all_wf(orig),
                    k <= n,
                    prod@.len() == n,
                    all_wf(prod@),
                    forall|j: int| 0 <= j < n ==> (#[trigger] prod@[j]).value() == nonzero_prefix_product(vals, j as nat),
                    acc.wf(),
                    fmul(acc.value(), nonzero_prefix_product(vals, k as nat)) == 1,
                    forall|j: int| 0 <= j < k ==> v@[j] == orig[j],
                    forall|j: int| k <= j < n ==> (#[trigger] v@[j]).value() == finv(orig[j].value()),
                    forall|j: int| k <= j < n && orig[j].value() != 0 ==> fmul((#[trigger] v@[j]).value(), orig[j].value()) == 1,
                    forall|j: int| k <= j < n && orig[j].value() == 0 ==> #[trigger] v@[j] == orig[j],
                decreases k,
            {
                k = k - 1;
                let g = v[k];
                assert(vals[k as int] == g.value());
                if !g.is_zero() {
                    let before = prod[k];
                    let inverse = field_mul(&acc, &before);
                    proof {
                        let t = acc.value();
                        let q = nonzero_prefix_product(vals, k as nat);
                        let x = g.value();
                        lemma_prefix_product_canonical(vals, k as nat);
                        // x * (t * q) == t * (q * x) == 1
                        lemma_fmul_comm(q, x);
                        lemma_fmul_assoc(t, x, q);
                        lemma_fmul_comm(t, x);
                        lemma_fmul_assoc(x, t, q);
                        lemma_fmul_comm(x, t);
                        lemma_fmul_assoc(t, q, x);
                        assert(fmul(x, fmul(t, q)) == 1);
                        lemma_fmul_comm(x, fmul(t, q));
                        lemma_inverse_unique(x, fmul(t, q));
                        assert(fmul(fmul(t, x), q) == 1);
                    }
                    acc = field_mul(&acc, &g);
                    v[k] = inverse;
                } else {
                    proof {
                        lemma_inverse_of_zero();
                    }
                }
            }
        },
        None => {
            // The product of nonzero elements of a prime field is never zero;
            // should it be, each element is inverted on its own.
            let ghost orig = v@;
            let mut k: usize = 0;
            while k < n
                invariant
                    n == v@.len(),
                    n == orig.len(),
                    all_wf(v@),
                    all_wf(orig),
                    k <= n,
                    forall|j: int| k <= j < n ==> v@[j] == orig[j],
                    forall|j: int| 0 <= j < k ==> (#[trigger] v@[j]).value() == finv(orig[j].value()),
                    forall|j: int| 0 <= j < k && orig[j].value() != 0 ==> fmul((#[trigger] v@[j]).value(), orig[j].value()) == 1,
                    forall|j: int| 0 <= j < k && orig[j].value() == 0 ==> #[trigger] v@[j] == orig[j],
                decreases n - k,
            {
                let g = v[k];
                match field_inverse(&g) {
                    Some(x) => {
                        proof {
                            lemma_inverse_unique(g.value(), x.value());
                            lemma_fmul_comm(g.value(), x.value());
                        }
                        v[k] = x;
                    },
                    None => {
                        proof {
                            lemma_inverse_of_zero();
                        }
                    },
                }
                k = k + 1;
            }
        },
    }
}

} // verus!
