use pairing_ce::bn256::{Fr as BnFr, FrRepr};
use pairing_ce::ff::{Field, PrimeField, PrimeFieldRepr};
use rand::{Rng, SeedableRng, thread_rng};
use rand::chacha::ChaChaRng;
use blake2_rfc_bellman_edition::blake2s::Blake2s;
use mathru::algebra::linear::matrix::{General, Inverse};

use poseidon_hash::{
    batch_inversion, derive_round_constants, generate_mds_matrix, poseidon_hash, poseidon_mimc,
    BlakeHasher, Bn256PoseidonParams, CubicSBox, Fr, GroupHasher, InversionSBox, Keccak256Hasher,
    PoseidonHashParams, PoseidonParamsInternal, PosendonR2C1, PowerSBox, QuinticSBox, SBox,
    StatefulSponge,
};

const FIRST_BLOCK: &[u8; 64] = b"096b36a5804bfacef1691e173c366a47ff5ba84a44f26ddd7e8d9f79d5b42df0";

fn to_lib(f: BnFr) -> Fr {
    Fr::from_repr(f.into_repr().0).unwrap()
}

fn to_bn(f: &Fr) -> BnFr {
    BnFr::from_repr(FrRepr(f.into_repr())).unwrap()
}

fn params() -> Bn256PoseidonParams {
    Bn256PoseidonParams::new_checked_2_into_1().unwrap()
}

fn hex(bytes: &[u8]) -> String {
    bytes.iter().map(|b| format!("{:02x}", b)).collect()
}

fn mul(a: BnFr, b: BnFr) -> BnFr {
    let mut r = a;
    r.mul_assign(&b);
    r
}

fn sub(a: BnFr, b: BnFr) -> BnFr {
    let mut r = a;
    r.sub_assign(&b);
    r
}

fn add(a: BnFr, b: BnFr) -> BnFr {
    let mut r = a;
    r.add_assign(&b);
    r
}

fn mds_of(p: &Bn256PoseidonParams) -> Vec<BnFr> {
    let mut m = vec![];
    for row in 0..p.state_width() {
        for e in p.mds_matrix_row(row) {
            m.push(to_bn(e));
        }
    }
    m
}

fn det3(m: &[BnFr]) -> BnFr {
    let t1 = mul(m[0], sub(mul(m[4], m[8]), mul(m[5], m[7])));
    let t2 = mul(m[1], sub(mul(m[3], m[8]), mul(m[5], m[6])));
    let t3 = mul(m[2], sub(mul(m[3], m[7]), mul(m[4], m[6])));
    add(sub(t1, t2), t3)
}

#[test]
fn test_over_float() {
    let matrix: General<f64> = General::new(3, 3, vec![1f64; 9]);

    let inv = matrix.inv();

    assert!(inv.is_ok());
}

#[test]
fn test_construction() {
    let params = Bn256PoseidonParams::new_checked_2_into_1().unwrap();
    let m = mds_of(&params);
    assert_eq!(m.len(), 9);

    // the inverse through the adjugate
    let det = det3(&m);
    let inv_det = det.inverse();
    assert!(inv_det.is_some());
    let inv_det = inv_det.unwrap();
    let cof = |r0: usize, r1: usize, c0: usize, c1: usize| {
        sub(mul(m[r0 * 3 + c0], m[r1 * 3 + c1]), mul(m[r0 * 3 + c1], m[r1 * 3 + c0]))
    };
    let neg = |x: BnFr| {
        let mut y = x;
        y.negate();
        y
    };
    let adj = [
        cof(1, 2, 1, 2), neg(cof(0, 2, 1, 2)), cof(0, 1, 1, 2),
        neg(cof(1, 2, 0, 2)), cof(0, 2, 0, 2), neg(cof(0, 1, 0, 2)),
        cof(1, 2, 0, 1), neg(cof(0, 2, 0, 1)), cof(0, 1, 0, 1),
    ];
    let inv: Vec<BnFr> = adj.iter().map(|a| mul(*a, inv_det)).collect();
    for i in 0..3 {
        for j in 0..3 {
            let mut s = BnFr::zero();
            for k in 0..3 {
                s = add(s, mul(m[i * 3 + k], inv[k * 3 + j]));
            }
            let expected = if i == j { BnFr::one() } else { BnFr::zero() };
            assert!(s == expected);
        }
    }
}

#[test]
fn test_generate_bn256_params() {
    let _params = Bn256PoseidonParams::new_2_into_1::<BlakeHasher>().unwrap();
}

#[test]
fn test_bn256_stateful_hash() {
    let rng = &mut thread_rng();
    let params = Bn256PoseidonParams::new_2_into_1::<BlakeHasher>().unwrap();
    let input: Vec<Fr> = (0..params.rate()).map(|_| to_lib(rng.gen())).collect();

    let mut stateful_rescue = StatefulSponge::new(&params);
    stateful_rescue.absorb(&input);

    let _ = stateful_rescue.squeeze_out_single();
}

#[test]
fn print_mds() {
    let params = Bn256PoseidonParams::new_2_into_1::<BlakeHasher>().unwrap();
    println!("MDS_MATRIX");
    let mut vec = vec![];
    for i in 0..params.state_width() {
        vec.push(format!("{:?}", params.mds_matrix_row(i)));
    }

    println!("[ {} ]", vec.join(","));
}

#[test]
fn batch_inversion_single_element() {
    for v in [1u64, 2, 7, 123456789] {
        let x = Fr::from_u64(v);
        let mut s = vec![x];
        batch_inversion(&mut s);
        assert!(mul(to_bn(&s[0]), to_bn(&x)) == BnFr::one());
    }
}

#[test]
fn batch_inversion_mixed_zeros() {
    let rng = &mut thread_rng();
    let before: Vec<Fr> = vec![
        Fr::zero(),
        to_lib(rng.gen()),
        Fr::from_u64(5),
        Fr::zero(),
        Fr::zero(),
        to_lib(rng.gen()),
        Fr::one(),
        Fr::zero(),
    ];
    let mut v = before.clone();
    batch_inversion(&mut v);
    for i in 0..v.len() {
        if before[i].is_zero() {
            assert_eq!(v[i], Fr::zero());
        } else {
            assert!(mul(to_bn(&v[i]), to_bn(&before[i])) == BnFr::one());
        }
    }
}

#[test]
fn batch_inversion_empty_and_all_zero() {
    let mut v: Vec<Fr> = vec![];
    batch_inversion(&mut v);
    assert!(v.is_empty());
    let mut z = vec![Fr::zero(), Fr::zero()];
    batch_inversion(&mut z);
    assert_eq!(z, vec![Fr::zero(), Fr::zero()]);
}

#[test]
fn power_sboxes_on_small_values() {
    let mut v = vec![Fr::from_u64(2), Fr::from_u64(3), Fr::zero()];
    CubicSBox.apply(&mut v);
    assert_eq!(v, vec![Fr::from_u64(8), Fr::from_u64(27), Fr::zero()]);

    let mut v = vec![Fr::from_u64(2), Fr::from_u64(3), Fr::one()];
    QuinticSBox.apply(&mut v);
    assert_eq!(v, vec![Fr::from_u64(32), Fr::from_u64(243), Fr::one()]);

    let mut v = vec![Fr::from_u64(2), Fr::from_u64(4)];
    InversionSBox.apply(&mut v);
    assert!(mul(to_bn(&v[0]), to_bn(&Fr::from_u64(2))) == BnFr::one());
    assert!(mul(to_bn(&v[1]), to_bn(&Fr::from_u64(4))) == BnFr::one());
}

#[test]
fn power_sbox_naive_and_windowed_agree() {
    let rng = &mut thread_rng();
    let input: Vec<Fr> = (0..4).map(|_| to_lib(rng.gen())).collect();
    // 0x1234 = ((1 * 16 + 2) * 16 + 3) * 16 + 4
    let naive = PowerSBox { power: [0x1234, 0, 0, 0], precomputed_indexes: vec![], inv: 0 };
    let windowed = PowerSBox { power: [0x1234, 0, 0, 0], precomputed_indexes: vec![1, 2, 3, 4], inv: 0 };
    let mut a = input.clone();
    naive.apply(&mut a);
    let mut b = input.clone();
    windowed.apply(&mut b);
    assert_eq!(a, b);
    for i in 0..input.len() {
        assert!(to_bn(&a[i]) == to_bn(&input[i]).pow([0x1234u64]));
    }
    let mut c = vec![Fr::from_u64(3)];
    PowerSBox { power: [5, 0, 0, 0], precomputed_indexes: vec![0, 5], inv: 0 }.apply(&mut c);
    assert_eq!(c, vec![Fr::from_u64(243)]);
}

#[test]
fn field_repr_round_trip() {
    let x = Fr::from_u64(0xdead_beef);
    assert_eq!(x.into_repr(), [0xdead_beef, 0, 0, 0]);
    assert_eq!(Fr::from_repr([7, 1, 0, 0]).unwrap().into_repr(), [7, 1, 0, 0]);
    // the modulus itself is not a field element
    assert!(Fr::from_repr(BnFr::char().0).is_none());
    assert!(Fr::from_repr([u64::MAX; 4]).is_none());
}

#[test]
fn permutation_is_deterministic() {
    let p = params();
    let rng = &mut thread_rng();
    let state: Vec<Fr> = (0..3).map(|_| to_lib(rng.gen())).collect();
    let a = poseidon_mimc(&p, &state);
    let b = poseidon_mimc(&p, &state);
    assert_eq!(a, b);
    assert_eq!(a.len(), 3);
    assert_ne!(a, state);
}

fn permute_by_hand(p: &Bn256PoseidonParams, state: &[Fr]) -> Vec<Fr> {
    let t = p.state_width() as usize;
    let m = mds_of(p);
    let half = p.num_full_rounds() / 2;
    let rounds = p.num_full_rounds() + p.num_partial_rounds();
    let mut s: Vec<BnFr> = state.iter().map(to_bn).collect();
    for r in 0..rounds {
        let rc: Vec<BnFr> = p.round_constants(r).iter().map(to_bn).collect();
        for i in 0..t {
            s[i] = add(s[i], rc[i]);
        }
        let full = r < half || r >= half + p.num_partial_rounds();
        for i in 0..t {
            if full || i == t - 1 {
                s[i] = s[i].pow([5u64]);
            }
        }
        let mut next = vec![BnFr::zero(); t];
        for i in 0..t {
            for j in 0..t {
                next[i] = add(next[i], mul(m[i * t + j], s[j]));
            }
        }
        s = next;
    }
    s.into_iter().map(to_lib).collect()
}

#[test]
fn permutation_matches_round_structure() {
    let small = Bn256PoseidonParams::new_for_params::<BlakeHasher>(1, 2, 3, 4, 0).unwrap();
    let state = vec![Fr::from_u64(1), Fr::from_u64(2), Fr::from_u64(3)];
    assert_eq!(poseidon_mimc(&small, &state), permute_by_hand(&small, &state));
    let p = params();
    assert_eq!(poseidon_mimc(&p, &state), permute_by_hand(&p, &state));
    let wide = Bn256PoseidonParams::new_3_into_1::<Keccak256Hasher>().unwrap();
    let state = vec![Fr::zero(), Fr::one(), Fr::from_u64(9), Fr::from_u64(77)];
    assert_eq!(poseidon_mimc(&wide, &state), permute_by_hand(&wide, &state));
}

#[test]
fn replacing_round_constants() {
    let mut p = params();
    let before = poseidon_mimc(&p, &[Fr::zero(), Fr::zero(), Fr::zero()]);
    p.set_round_constants(vec![Fr::one(); 3 * 91]);
    assert_eq!(p.round_constants(7), &[Fr::one(); 3][..]);
    assert_eq!(p.mds_matrix_row(0), params().mds_matrix_row(0));
    let after = poseidon_mimc(&p, &[Fr::zero(), Fr::zero(), Fr::zero()]);
    assert_ne!(before, after);
    assert_eq!(after, permute_by_hand(&p, &[Fr::zero(), Fr::zero(), Fr::zero()]));
}

#[test]
fn one_shot_hash_equals_manual_sponge() {
    let p = params();
    let rng = &mut thread_rng();
    for len in 0..7 {
        let input: Vec<Fr> = (0..len).map(|_| to_lib(rng.gen())).collect();
        let one_shot = poseidon_hash(&p, &input);
        let mut sponge = StatefulSponge::new(&p);
        sponge.absorb(&input);
        let manual: Vec<Fr> = (0..p.capacity()).map(|_| sponge.squeeze_out_single()).collect();
        assert_eq!(one_shot, manual);
        assert_eq!(one_shot.len(), 1);
    }
}

#[test]
fn padding_uses_ones() {
    let p = params();
    let a = Fr::from_u64(11);
    let b = Fr::from_u64(12);
    let c = Fr::from_u64(13);

    // a multiple of the rate is not padded
    let mut s1 = StatefulSponge::new(&p);
    s1.absorb(&[a, b]);
    let mut s2 = StatefulSponge::new(&p);
    s2.absorb_single_value(a);
    s2.absorb_single_value(b);
    assert_eq!(s1.squeeze_out_single(), s2.squeeze_out_single());

    // rate + 1 values are padded with rate - 1 ones
    let mut s3 = StatefulSponge::new(&p);
    s3.absorb(&[a, b, c]);
    let mut s4 = StatefulSponge::new(&p);
    for v in [a, b, c, Fr::one()] {
        s4.absorb_single_value(v);
    }
    assert_eq!(s3.squeeze_out_single(), s4.squeeze_out_single());

    // zero is not what pads
    let mut s5 = StatefulSponge::new(&p);
    for v in [a, b, c, Fr::zero()] {
        s5.absorb_single_value(v);
    }
    let mut s6 = StatefulSponge::new(&p);
    s6.absorb(&[a, b, c]);
    assert_ne!(s5.squeeze_out_single(), s6.squeeze_out_single());
}

#[test]
fn absorb_after_squeeze_discards_output() {
    let p = params();
    let a = Fr::from_u64(1);
    let b = Fr::from_u64(2);
    let c = Fr::from_u64(3);

    let mut s1 = StatefulSponge::new(&p);
    s1.absorb(&[a, b]);
    let first = s1.squeeze_out_single();
    s1.absorb_single_value(c);
    let after = s1.squeeze_out_single();

    // the same with the state reached by the squeeze, and [c] pending
    let mut s2 = StatefulSponge::new(&p);
    s2.absorb(&[a, b]);
    assert_eq!(s2.squeeze_out_single(), first);
    s2.absorb(&[c]);
    assert_eq!(s2.squeeze_out_single(), after);

    // a second squeeze without the absorb hands out the unread output
    let mut s3 = StatefulSponge::new(&p);
    s3.absorb(&[a, b]);
    s3.squeeze_out_single();
    assert_ne!(s3.squeeze_out_single(), after);
}

#[test]
fn squeezing_past_the_rate_permutes_again() {
    let p = params();
    let mut s = StatefulSponge::new(&p);
    s.absorb(&[Fr::from_u64(5), Fr::from_u64(6)]);
    let o1 = s.squeeze_out_single();
    let o2 = s.squeeze_out_single();
    let o3 = s.squeeze_out_single();

    let first = poseidon_mimc(&p, &[Fr::from_u64(5), Fr::from_u64(6), Fr::zero()]);
    assert_eq!(o1, first[0]);
    assert_eq!(o2, first[1]);
    let second = poseidon_mimc(&p, &first);
    assert_eq!(o3, second[0]);
}

#[test]
fn parameter_generation_is_deterministic() {
    let a = Bn256PoseidonParams::new_2_into_1::<BlakeHasher>().unwrap();
    let b = Bn256PoseidonParams::new_2_into_1::<BlakeHasher>().unwrap();
    for r in 0..91 {
        assert_eq!(a.round_constants(r), b.round_constants(r));
    }
    for row in 0..3 {
        assert_eq!(a.mds_matrix_row(row), b.mds_matrix_row(row));
    }
    let k1 = Bn256PoseidonParams::new_3_into_1::<Keccak256Hasher>().unwrap();
    let k2 = Bn256PoseidonParams::new_3_into_1::<Keccak256Hasher>().unwrap();
    for row in 0..4 {
        assert_eq!(k1.mds_matrix_row(row), k2.mds_matrix_row(row));
    }
    assert_eq!(k1.round_constants(90), k2.round_constants(90));
    assert_ne!(k1.mds_matrix_row(0)[0], a.mds_matrix_row(0)[0]);
}

#[test]
fn parameter_getters() {
    let p = params();
    assert_eq!(p.capacity(), 1);
    assert_eq!(p.rate(), 2);
    assert_eq!(p.state_width(), 3);
    assert_eq!(p.num_full_rounds(), 8);
    assert_eq!(p.num_partial_rounds(), 83);
    assert_eq!(p.security_level(), 126);
    assert_eq!(p.output_len(), 1);
    assert_eq!(p.absorbtion_cycle_len(), 2);
    assert_eq!(p.compression_rate(), 2);
    assert_eq!(p.round_constants(90).len(), 3);
    assert_eq!(p.mds_matrix_row(2).len(), 3);
}

#[test]
fn mds_matrix_is_invertible() {
    for p in [
        Bn256PoseidonParams::new_checked_2_into_1().unwrap(),
        Bn256PoseidonParams::new_2_into_1::<Keccak256Hasher>().unwrap(),
    ] {
        assert!(!det3(&mds_of(&p)).is_zero());
    }
}

fn blake_digest(personalization: &[u8], parts: &[&[u8]]) -> Vec<u8> {
    let mut h = Blake2s::with_params(32, &[], &[], personalization);
    for part in parts {
        h.update(part);
    }
    h.finalize().as_bytes().to_vec()
}

#[test]
fn round_constants_follow_the_derivation() {
    let derived = derive_round_constants::<BlakeHasher>(6).unwrap();
    let mut expected = vec![];
    let mut nonce = 0u32;
    while expected.len() < 6 {
        let d = blake_digest(b"Rescue_f", &[&FIRST_BLOCK[..], &nonce.to_be_bytes()[..]]);
        let mut repr = FrRepr::default();
        repr.read_le(&d[..]).unwrap();
        if let Ok(c) = BnFr::from_repr(repr) {
            if !c.is_zero() {
                expected.push(to_lib(c));
            }
        }
        nonce += 1;
    }
    assert_eq!(derived, expected);
    let p = params();
    assert_eq!(p.round_constants(0), &expected[0..3]);
    assert_eq!(p.round_constants(1), &expected[3..6]);
    assert_eq!(derive_round_constants::<BlakeHasher>(0).unwrap(), vec![]);
}

#[test]
fn mds_matrix_follows_the_derivation() {
    let d = blake_digest(b"ResM0003", &[&FIRST_BLOCK[..]]);
    let mut seed = [0u32; 8];
    for i in 0..8 {
        seed[i] = u32::from_be_bytes([d[4 * i], d[4 * i + 1], d[4 * i + 2], d[4 * i + 3]]);
    }
    assert_ne!(seed[0], seed[1]);
    let mut rng = ChaChaRng::from_seed(&seed[..]);
    let x: Vec<BnFr> = (0..3).map(|_| rng.gen()).collect();
    let y: Vec<BnFr> = (0..3).map(|_| rng.gen()).collect();
    let mut expected = vec![];
    for i in 0..3 {
        for j in 0..3 {
            expected.push(to_lib(sub(x[i], y[j]).inverse().unwrap()));
        }
    }
    assert_eq!(generate_mds_matrix(3, &seed).unwrap(), expected);
    let p = params();
    assert_eq!(p.mds_matrix_row(0), &expected[0..3]);
    assert_eq!(p.mds_matrix_row(2), &expected[6..9]);
}

#[test]
fn hashers_give_known_digests() {
    // BLAKE2s-256 of "abc"
    let mut b = BlakeHasher::new(&[]);
    b.update(b"abc");
    assert_eq!(hex(&b.finalize()), "508c5e8c327c14e2e1a72ba34eeb452f37458b209ed63a294d999b4c86675982");
    // Keccak-256 of the empty string
    let mut k = Keccak256Hasher::new(&[]);
    assert_eq!(hex(&k.finalize()), "c5d2460186f7233c927e7db2dcc703c0e500b653ca82273b7bfad8045d85a470");
    // personalisation, pieces, and reuse after finalize
    let mut b = BlakeHasher::new(b"Rescue_f");
    b.update(b"ab");
    b.update(b"c");
    assert_eq!(b.finalize(), blake_digest(b"Rescue_f", &[b"abc"]));
    b.update(b"abc");
    assert_eq!(hex(&b.finalize()), "508c5e8c327c14e2e1a72ba34eeb452f37458b209ed63a294d999b4c86675982");
    let mut k = Keccak256Hasher::new(b"ab");
    k.update(b"c");
    assert_eq!(k.finalize(), tiny_keccak::keccak256(b"abc").to_vec());
}

#[test]
fn end_to_end_rate_two_matches_specialization() {
    let p = Bn256PoseidonParams::new_for_params::<BlakeHasher>(1, 2, 83, 8, 126).unwrap();
    let a = Fr::from_u64(42);
    let b = Fr::from_repr([1, 2, 3, 4]).unwrap();
    let out = poseidon_hash(&p, &[a, b]);
    assert_eq!(out.len(), 1);

    let mut fixed = PosendonR2C1::new(&p);
    fixed.absorb_single_value(a);
    fixed.absorb_single_value(b);
    assert_eq!(fixed.squeeze_out_single(), out[0]);
}

#[test]
fn specialization_follows_the_generic_sponge() {
    let p = params();
    let rng = &mut thread_rng();
    let values: Vec<Fr> = (0..9).map(|_| to_lib(rng.gen())).collect();
    // absorb and squeeze in an interleaving that exercises every transition
    let script: [(bool, usize); 9] =
        [(true, 0), (false, 0), (true, 1), (true, 2), (true, 3), (false, 0), (false, 0), (false, 0), (true, 4)];
    let mut generic = StatefulSponge::new(&p);
    let mut fixed = PosendonR2C1::new(&p);
    for (absorb, i) in script {
        if absorb {
            generic.absorb_single_value(values[i]);
            fixed.absorb_single_value(values[i]);
        } else {
            assert_eq!(generic.squeeze_out_single(), fixed.squeeze_out_single());
        }
    }
    assert_eq!(generic.squeeze_out_single(), fixed.squeeze_out_single());
    assert_eq!(generic.squeeze_out_single(), fixed.squeeze_out_single());
}
