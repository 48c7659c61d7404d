//! A Poseidon-style sponge hash over the scalar field of the BN256 curve.
//!
//! The permutation, its S-boxes, batch inversion, the derivation of round
//! constants and of the MDS matrix, and the absorb/squeeze state machine are
//! verified against the mathematical model in the spec functions of each
//! module. Field arithmetic itself is delegated to `pairing_ce`.
pub mod field;
pub mod batch;
pub mod sbox;
pub mod params;
pub mod permutation;
pub mod sponge;
pub mod group_hash;
pub mod constants;
pub mod mds;
pub mod bn256;
pub mod specialization;

pub use field::Fr;
pub use batch::batch_inversion;
pub use sbox::{SBox, CubicSBox, QuinticSBox, PowerSBox, InversionSBox};
pub use params::{PoseidonHashParams, PoseidonParamsInternal};
pub use permutation::{poseidon_mimc, scalar_product};
pub use sponge::{StatefulSponge, poseidon_hash};
pub use group_hash::{GroupHasher, BlakeHasher, Keccak256Hasher};
pub use mds::generate_mds_matrix;
pub use bn256::{Bn256PoseidonParams, derive_round_constants};
pub use specialization::PosendonR2C1;
