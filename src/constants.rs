//! The fixed byte strings from which parameter sets are derived.
use vstd::prelude::*;

verus! {

/// The ASCII text `096b36a5804bfacef1691e173c366a47ff5ba84a44f26ddd7e8d9f79d5b42df0`,
/// hashed first when deriving constants, chosen so that no one could have
/// anticipated it.
pub open spec fn gh_first_block() -> Seq<u8> {
    seq![
        48, 57, 54, 98, 51, 54, 97, 53, 56, 48, 52, 98, 102, 97, 99, 101,
        102, 49, 54, 57, 49, 101, 49, 55, 51, 99, 51, 54, 54, 97, 52, 55,
        102, 102, 53, 98, 97, 56, 52, 97, 52, 52, 102, 50, 54, 100, 100, 100,
        55, 101, 56, 100, 57, 102, 55, 57, 100, 53, 98, 52, 50, 100, 102, 48,
    ]
}

/// The personalisation `Rescue_f` under which round constants are derived.
pub open spec fn round_constants_tag() -> Seq<u8> {
    seq![82u8, 101, 115, 99, 117, 101, 95, 102]
}

/// The personalisation `ResM0003` under which the MDS matrix seed is derived.
pub open spec fn mds_tag() -> Seq<u8> {
    seq![82u8, 101, 115, 77, 48, 48, 48, 51]
}

pub fn gh_first_block_bytes() -> (r: [u8; 64])
    ensures
        r@ == gh_first_block(),
{
    let r: [u8; 64] = [
        48, 57, 54, 98, 51, 54, 97, 53, 56, 48, 52, 98, 102, 97, 99, 101,
        102, 49, 54, 57, 49, 101, 49, 55, 51, 99, 51, 54, 54, 97, 52, 55,
        102, 102, 53, 98, 97, 56, 52, 97, 52, 52, 102, 50, 54, 100, 100, 100,
        55, 101, 56, 100, 57, 102, 55, 57, 100, 53, 98, 52, 50, 100, 102, 48,
    ];
    assert(r@ =~= gh_first_block());
    r
}

pub fn round_constants_tag_bytes() -> (r: [u8; 8])
    ensures
        r@ == round_constants_tag(),
{
    let r: [u8; 8] = [82, 101, 115, 99, 117, 101, 95, 102];
    assert(r@ =~= round_constants_tag());
    r
}

pub fn mds_tag_bytes() -> (r: [u8; 8])
    ensures
        r@ == mds_tag(),
{
    let r: [u8; 8] = [82, 101, 115, 77, 48, 48, 48, 51];
    assert(r@ =~= mds_tag());
    r
}

/// The four big-endian bytes of `n`.
pub open spec fn be_bytes(n: u32) -> Seq<u8> {
    seq![(n / 0x100_0000) as u8, (n / 0x1_0000 % 0x100) as u8, (n / 0x100 % 0x100) as u8, (n % 0x100) as u8]
}

pub fn u32_to_be_bytes(n: u32) -> (r: [u8; 4])
    ensures
        r@ == be_bytes(n),
{
    let r: [u8; 4] = [(n / 0x100_0000) as u8, (n / 0x1_0000 % 0x100) as u8, (n / 0x100 % 0x100) as u8, (n % 0x100) as u8];
    assert(r@ =~= be_bytes(n));
    r
}

/// The big-endian 32-bit word in the first four bytes of `b`.
pub open spec fn be_word(b: Seq<u8>) -> u32 {
    (b[0] as nat * 0x100_0000 + b[1] as nat * 0x1_0000 + b[2] as nat * 0x100 + b[3] as nat) as u32
}

pub fn read_be_u32(b: &[u8]) -> (r: u32)
    requires
        b@.len() >= 4,
    ensures
        r == be_word(b@),
{
    (b[0] as u32) * 0x100_0000 + (b[1] as u32) * 0x1_0000 + (b[2] as u32) * 0x100 + b[3] as u32
}

} // verus!
