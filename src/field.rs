//! Elements of the BN256 scalar field, held as four canonical little-endian
//! 64-bit limbs, and the arithmetic on them.
use vstd::prelude::*;
use vstd::arithmetic::div_mod::*;
use vstd::arithmetic::mul::*;
use vstd::arithmetic::power::*;
use pairing_ce::bn256::{Fr as BnFr, FrRepr};
use pairing_ce::ff::{Field, PrimeField, PrimeFieldRepr};

verus! {

/// The order of the BN256 scalar field.
pub open spec fn modulus() -> nat {
    21888242871839275222246405745257275088548364400416034343698204186575808495617nat
}

/// Addition in the field, on canonical values.
pub open spec fn fadd(a: nat, b: nat) -> nat {
    (a + b) % modulus()
}

/// Subtraction in the field, on canonical values.
pub open spec fn fsub(a: nat, b: nat) -> nat {
    ((a - b) % (modulus() as int)) as nat
}

/// Multiplication in the field.
pub open spec fn fmul(a: nat, b: nat) -> nat {
    (a * b) % modulus()
}

/// `a` raised to the power `e`, modulo the field's order.
pub open spec fn fpow(a: nat, e: nat) -> nat {
    (pow(a as int, e) % (modulus() as int)) as nat
}

/// `b` is the canonical multiplicative inverse of `a`.
pub open spec fn is_inverse(a: nat, b: nat) -> bool {
    b < modulus() && fmul(a, b) == 1
}

/// The multiplicative inverse of `a`, and zero where `a` has none.
pub open spec fn finv(a: nat) -> nat {
    if exists|b: nat| is_inverse(a, b) {
        choose|b: nat| is_inverse(a, b)
    } else {
        0
    }
}

/// The integer that four little-endian 64-bit limbs encode.
pub open spec fn limbs_value(l0: u64, l1: u64, l2: u64, l3: u64) -> nat {
    l0 as nat + l1 as nat * 0x1_0000_0000_0000_0000nat + l2 as nat
        * 0x1_0000_0000_0000_0000_0000_0000_0000_0000nat + l3 as nat
        * 0x1_0000_0000_0000_0000_0000_0000_0000_0000_0000_0000_0000_0000nat
}

/// The integer that a little-endian byte string encodes.
pub open spec fn le_value(b: Seq<u8>) -> nat
    decreases b.len(),
{
    if b.len() == 0 {
        0
    } else {
        b[0] as nat + 256 * le_value(b.drop_first())
    }
}

/// An element of the BN256 scalar field, in canonical (non-Montgomery) form.
#[derive(Clone, Copy, Debug, PartialEq, Eq, Structural)]
pub struct Fr {
    pub(crate) l0: u64,
    pub(crate) l1: u64,
    pub(crate) l2: u64,
    pub(crate) l3: u64,
}

impl Fr {
    /// The integer this element stands for.
    pub closed spec fn value(&self) -> nat {
        limbs_value(self.l0, self.l1, self.l2, self.l3)
    }

    /// The limbs encode an integer below the field's order.
    pub open spec fn wf(&self) -> bool {
        self.value() < modulus()
    }

    pub fn zero() -> (r: Fr)
        ensures
            r.wf(),
            r.value() == 0,
    {
        Fr { l0: 0, l1: 0, l2: 0, l3: 0 }
    }

    pub fn one() -> (r: Fr)
        ensures
            r.wf(),
            r.value() == 1,
    {
        Fr { l0: 1, l1: 0, l2: 0, l3: 0 }
    }

    pub fn from_u64(v: u64) -> (r: Fr)
        ensures
            r.wf(),
            r.value() == v,
    {
        Fr { l0: v, l1: 0, l2: 0, l3: 0 }
    }

    pub fn is_zero(&self) -> (r: bool)
        ensures
            r == (self.value() == 0),
    {
        self.l0 == 0 && self.l1 == 0 && self.l2 == 0 && self.l3 == 0
    }

    /// The canonical little-endian limbs of this element.
    pub fn into_repr(&self) -> (r: [u64; 4])
        ensures
            limbs_value(r[0], r[1], r[2], r[3]) == self.value(),
    {
        [self.l0, self.l1, self.l2, self.l3]
    }

    /// The element that canonical little-endian limbs encode, if they encode
    /// an integer below the field's order.
    pub fn from_repr(limbs: [u64; 4]) -> (r: Option<Fr>)
        ensures
            r.is_some() <==> limbs_value(limbs[0], limbs[1], limbs[2], limbs[3]) < modulus(),
            r.is_some() ==> r.unwrap().wf() && r.unwrap().value() == limbs_value(
                limbs[0],
                limbs[1],
                limbs[2],
                limbs[3],
            ),
    {
        let candidate = Fr { l0: limbs[0], l1: limbs[1], l2: limbs[2], l3: limbs[3] };
        if repr_in_field(&candidate) {
            Some(candidate)
        } else {
            None
        }
    }
}

/// Relies on `PrimeField::from_repr` of pairing_ce's bn256 `Fr`, which accepts
/// exactly the representations below the modulus.
#[verifier::external_body]
fn repr_in_field(a: &Fr) -> (r: bool)
    ensures
        r == a.wf(),
{
    BnFr::from_repr(FrRepr([a.l0, a.l1, a.l2, a.l3])).is_ok()
}


/// Relies on `Field::add_assign` of pairing_ce's bn256 `Fr`: the sum modulo
/// the field's order.
#[verifier::external_body]
pub(crate) fn field_add(a: &Fr, b: &Fr) -> (r: Fr)
    requires
        a.wf(),
        b.wf(),
    ensures
        r.wf(),
        r.value() == fadd(a.value(), b.value()),
{
    let mut x = BnFr::from_repr(FrRepr([a.l0, a.l1, a.l2, a.l3])).unwrap();
    x.add_assign(&BnFr::from_repr(FrRepr([b.l0, b.l1, b.l2, b.l3])).unwrap());
    let l = x.into_repr().0;
    Fr { l0: l[0], l1: l[1], l2: l[2], l3: l[3] }
}

/// Relies on `Field::sub_assign` of pairing_ce's bn256 `Fr`: the difference
/// modulo the field's order.
#[verifier::external_body]
pub(crate) fn field_sub(a: &Fr, b: &Fr) -> (r: Fr)
    requires
        a.wf(),
        b.wf(),
    ensures
        r.wf(),
        r.value() == fsub(a.value(), b.value()),
{
    let mut x = BnFr::from_repr(FrRepr([a.l0, a.l1, a.l2, a.l3])).unwrap();
    x.sub_assign(&BnFr::from_repr(FrRepr([b.l0, b.l1, b.l2, b.l3])).unwrap());
    let l = x.into_repr().0;
    Fr { l0: l[0], l1: l[1], l2: l[2], l3: l[3] }
}

/// Relies on `Field::mul_assign` of pairing_ce's bn256 `Fr`: the product
/// modulo the field's order.
#[verifier::external_body]
pub(crate) fn field_mul(a: &Fr, b: &Fr) -> (r: Fr)
    requires
        a.wf(),
        b.wf(),
    ensures
        r.wf(),
        r.value() == fmul(a.value(), b.value()),
{
    let mut x = BnFr::from_repr(FrRepr([a.l0, a.l1, a.l2, a.l3])).unwrap();
    x.mul_assign(&BnFr::from_repr(FrRepr([b.l0, b.l1, b.l2, b.l3])).unwrap());
    let l = x.into_repr().0;
    Fr { l0: l[0], l1: l[1], l2: l[2], l3: l[3] }
}

/// Relies on `Field::square` of pairing_ce's bn256 `Fr`: the square modulo
/// the field's order.
#[verifier::external_body]
pub(crate) fn field_square(a: &Fr) -> (r: Fr)
    requires
        a.wf(),
    ensures
        r.wf(),
        r.value() == fmul(a.value(), a.value()),
{
    let mut x = BnFr::from_repr(FrRepr([a.l0, a.l1, a.l2, a.l3])).unwrap();
    x.square();
    let l = x.into_repr().0;
    Fr { l0: l[0], l1: l[1], l2: l[2], l3: l[3] }
}

/// Relies on `Field::inverse` of pairing_ce's bn256 `Fr`: `None` for zero,
/// otherwise the multiplicative inverse.
#[verifier::external_body]
pub(crate) fn field_inverse(a: &Fr) -> (r: Option<Fr>)
    requires
        a.wf(),
    ensures
        r.is_none() <==> a.value() == 0,
        r.is_some() ==> r.unwrap().wf() && fmul(a.value(), r.unwrap().value()) == 1,
{
    match BnFr::from_repr(FrRepr([a.l0, a.l1, a.l2, a.l3])).unwrap().inverse() {
        Some(x) => {
            let l = x.into_repr().0;
            Some(Fr { l0: l[0], l1: l[1], l2: l[2], l3: l[3] })
        },
        None => None,
    }
}

/// Relies on `Field::pow` of pairing_ce's bn256 `Fr`, whose exponent is given
/// as little-endian 64-bit limbs.
#[verifier::external_body]
pub(crate) fn field_pow(a: &Fr, exp: &[u64; 4]) -> (r: Fr)
    requires
        a.wf(),
    ensures
        r.wf(),
        r.value() == fpow(a.value(), limbs_value(exp[0], exp[1], exp[2], exp[3])),
{
    let x = BnFr::from_repr(FrRepr([a.l0, a.l1, a.l2, a.l3])).unwrap().pow(exp);
    let l = x.into_repr().0;
    Fr { l0: l[0], l1: l[1], l2: l[2], l3: l[3] }
}

/// Relies on `PrimeFieldRepr::read_le` and `PrimeField::from_repr` of
/// pairing_ce's bn256 `Fr`: 32 bytes read as a little-endian integer, accepted
/// when it is below the field's order.
#[verifier::external_body]
pub(crate) fn field_from_le_bytes(bytes: &[u8]) -> (r: Option<Fr>)
    requires
        bytes@.len() == 32,
    ensures
        r.is_some() <==> le_value(bytes@) < modulus(),
        r.is_some() ==> r.unwrap().wf() && r.unwrap().value() == le_value(bytes@),
{
    let mut repr = FrRepr::default();
    if repr.read_le(bytes).is_err() {
        return None;
    }
    match BnFr::from_repr(repr) {
        Ok(_) => Some(Fr { l0: repr.0[0], l1: repr.0[1], l2: repr.0[2], l3: repr.0[3] }),
        Err(_) => None,
    }
}

/// Two elements with the same value are the same element.
pub proof fn lemma_value_injective(a: Fr, b: Fr)
    ensures
        a.value() == b.value() <==> a == b,
{
    if a.value() == b.value() {
        let w: int = 0x1_0000_0000_0000_0000;
        let ra = a.l1 as int + a.l2 as int * w + a.l3 as int * (w * w);
        let rb = b.l1 as int + b.l2 as int * w + b.l3 as int * (w * w);
        assert(a.value() == a.l0 as int + w * ra) by (nonlinear_arith)
            requires
                w == 0x1_0000_0000_0000_0000int,
                ra == a.l1 as int + a.l2 as int * w + a.l3 as int * (w * w),
                a.value() == limbs_value(a.l0, a.l1, a.l2, a.l3),
        ;
        assert(b.value() == b.l0 as int + w * rb) by (nonlinear_arith)
            requires
                w == 0x1_0000_0000_0000_0000int,
                rb == b.l1 as int + b.l2 as int * w + b.l3 as int * (w * w),
                b.value() == limbs_value(b.l0, b.l1, b.l2, b.l3),
        ;
        lemma_limb_split(a.l0 as int, ra, b.l0 as int, rb, w);
        let sa = a.l2 as int + a.l3 as int * w;
        let sb = b.l2 as int + b.l3 as int * w;
        assert(ra == a.l1 as int + w * sa) by (nonlinear_arith)
            requires
                ra == a.l1 as int + a.l2 as int * w + a.l3 as int * (w * w),
                sa == a.l2 as int + a.l3 as int * w,
        ;
        assert(rb == b.l1 as int + w * sb) by (nonlinear_arith)
            requires
                rb == b.l1 as int + b.l2 as int * w + b.l3 as int * (w * w),
                sb == b.l2 as int + b.l3 as int * w,
        ;
        lemma_limb_split(a.l1 as int, sa, b.l1 as int, sb, w);
        assert(sa == a.l2 as int + w * a.l3 as int) by (nonlinear_arith)
            requires
                sa == a.l2 as int + a.l3 as int * w,
        ;
        assert(sb == b.l2 as int + w * b.l3 as int) by (nonlinear_arith)
            requires
                sb == b.l2 as int + b.l3 as int * w,
        ;
        lemma_limb_split(a.l2 as int, a.l3 as int, b.l2 as int, b.l3 as int, w);
    }
}

proof fn lemma_limb_split(x0: int, x1: int, y0: int, y1: int, w: int)
    requires
        w > 0,
        0 <= x0 < w,
        0 <= y0 < w,
        x0 + w * x1 == y0 + w * y1,
    ensures
        x0 == y0,
        x1 == y1,
{
    lemma_mul_is_commutative(w, x1);
    lemma_mul_is_commutative(w, y1);
    lemma_fundamental_div_mod_converse(x0 + w * x1, w, x1, x0);
    lemma_fundamental_div_mod_converse(y0 + w * y1, w, y1, y0);
}

/// The inverse of a field element is unique.
pub proof fn lemma_inverse_unique(a: nat, b: nat)
    requires
        is_inverse(a, b),
    ensures
        finv(a) == b,
{
    let c = finv(a);
    assert(is_inverse(a, c));
    let p = modulus() as int;
    // b == b * (a * c) == (a * b) * c == c, modulo p
    lemma_mul_mod_noop_right(b as int, (a * c) as int, p);
    lemma_mul_mod_noop_left((a * b) as int, c as int, p);
    lemma_mul_is_associative(b as int, a as int, c as int);
    lemma_mul_is_commutative(a as int, b as int);
    lemma_small_mod(b, modulus());
    lemma_small_mod(c, modulus());
}

/// Zero has no inverse, so its `finv` is zero.
pub proof fn lemma_inverse_of_zero()
    ensures
        finv(0) == 0,
{
    assert forall|b: nat| !is_inverse(0, b) by {
        lemma_small_mod(0, modulus());
    }
}


/// Multiplication in the field is commutative.
pub proof fn lemma_fmul_comm(a: nat, b: nat)
    ensures
        fmul(a, b) == fmul(b, a),
{
    lemma_mul_is_commutative(a as int, b as int);
}

/// Multiplication in the field is associative.
pub proof fn lemma_fmul_assoc(a: nat, b: nat, c: nat)
    ensures
        fmul(fmul(a, b), c) == fmul(a, fmul(b, c)),
{
    let p = modulus() as int;
    lemma_mul_mod_noop_left((a * b) as int, c as int, p);
    lemma_mul_mod_noop_right(a as int, (b * c) as int, p);
    lemma_mul_is_associative(a as int, b as int, c as int);
}



/// Powers of one base multiply by adding their exponents.
pub proof fn lemma_fpow_adds(x: nat, a: nat, b: nat)
    ensures
        fpow(x, a + b) == fmul(fpow(x, a), fpow(x, b)),
{
    let p = modulus() as int;
    lemma_pow_adds(x as int, a, b);
    lemma_mul_mod_noop(pow(x as int, a), pow(x as int, b), p);
}

/// The zeroth and first powers.
pub proof fn lemma_fpow_small(x: nat)
    requires
        x < modulus(),
    ensures
        fpow(x, 0) == 1,
        fpow(x, 1) == x,
{
    lemma_pow0(x as int);
    lemma_pow1(x as int);
    lemma_small_mod(1, modulus());
    lemma_small_mod(x, modulus());
}

/// Squaring a power doubles its exponent.
pub proof fn lemma_fpow_square(x: nat, a: nat)
    ensures
        fpow(x, 2 * a) == fmul(fpow(x, a), fpow(x, a)),
{
    lemma_fpow_adds(x, a, a);
}



/// A power of a power multiplies the exponents.
pub proof fn lemma_fpow_of_fpow(x: nat, a: nat, b: nat)
    ensures
        fpow(fpow(x, a), b) == fpow(x, a * b),
{
    let p = modulus() as int;
    lemma_pow_mod_noop(pow(x as int, a), b, p);
    lemma_pow_multiplies(x as int, a, b);
}

} // verus!
