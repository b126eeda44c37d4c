//! The public-data commitment, and the hash-to-field reduction.
//!
//! The commitment chains two 256-bit hashes: first over the 512-bit
//! big-endian block header (block number, then total fee), then over that
//! digest followed by the packed transaction data.  The top three bits of
//! the final digest are cleared so that the 256-bit value is guaranteed
//! to lie below the field order; the masked bytes, read big-endian, are
//! the commitment.  The hash primitive is an outside library behind a
//! trusted wrapper; the framing, masking and reduction are verified.

use vstd::prelude::*;

use crypto::digest::Digest;
use crypto::sha2::Sha256;

verus! {

use crate::bewords::{
    be_value, be_bytes, pow256, lemma_be_value_head_bound, lemma_be_bytes_canon,
    lemma_pow256_values, lemma_pow256_adds,
};
use crate::field::{Fel, fel_v, fel_wf, fr_modulus};

/// The 32-byte digest the outside hash assigns to a byte string.
pub uninterp spec fn sha256_of(input: Seq<u8>) -> Seq<u8>;

/// Relies on `crypto::sha2::Sha256`: the digest is a function of the
/// input bytes alone, and is 32 bytes long.
#[verifier::external_body]
pub(crate) fn sha256(input: &Vec<u8>) -> (r: Vec<u8>)
    ensures
        r@ == sha256_of(input@),
        r@.len() == 32,
{
    let mut h = Sha256::new();
    h.input(&input[..]);
    let mut out = [0u8; 32];
    h.result(&mut out[..]);
    out.to_vec()
}

/// A digest with the top three bits of its first byte cleared.
pub open spec fn masked(h: Seq<u8>) -> Seq<u8> {
    h.update(0, (h[0] % 32) as u8)
}

/// The field value a digest reduces to: its masked bytes, big-endian.
pub open spec fn reduced_v(h: Seq<u8>) -> nat {
    be_value(masked(h))
}

pub proof fn lemma_pow256_31()
    ensures
        pow256(31) == 0x100000000000000000000000000000000000000000000000000000000000000nat,
{
    lemma_pow256_values();
    lemma_pow256_adds(4, 4);
    assert(pow256(8) == 0x10000000000000000nat);
    lemma_pow256_adds(8, 8);
    assert(pow256(16) == 0x100000000000000000000000000000000nat);
    lemma_pow256_adds(16, 8);
    assert(pow256(24) == 0x1000000000000000000000000000000000000000000000000nat);
    lemma_pow256_adds(24, 4);
    assert(pow256(28) == 0x100000000000000000000000000000000000000000000000000000000nat);
    lemma_pow256_adds(28, 3);
}

/// A masked 32-byte digest always reduces to a value below the field
/// order.
pub proof fn lemma_reduced_bound(h: Seq<u8>)
    requires
        h.len() == 32,
    ensures
        reduced_v(h) < fr_modulus(),
{
    let m = masked(h);
    assert(m.len() == 32);
    assert(m[0] < 32);
    lemma_be_value_head_bound(m);
    lemma_pow256_31();
    vstd::arithmetic::mul::lemma_mul_inequality(
        (m[0] + 1) as int,
        32,
        pow256(31) as int,
    );
}

/// Clear the top three bits of a 32-byte digest and read it as a field
/// element.
#[verifier::loop_isolation(false)]
pub fn reduce_hash(h: &Vec<u8>) -> (r: Fel)
    requires
        h@.len() == 32,
    ensures
        fel_wf(r),
        fel_v(r) == reduced_v(h@),
{
    let mut b: Vec<u8> = Vec::new();
    b.push(h[0] % 32);
    let mut i: usize = 1;
    while i < 32
        invariant
            1 <= i <= 32,
            b@.len() == i,
            b@[0] == h@[0] % 32,
            forall|j: int| 1 <= j < i ==> b@[j] == h@[j],
        decreases 32 - i,
    {
        b.push(h[i]);
        i = i + 1;
    }
    proof {
        assert(b@ =~= masked(h@));
        lemma_reduced_bound(h@);
    }
    Fel { b }
}

/// Append one byte string to another.
#[verifier::loop_isolation(false)]
pub fn extend_bytes(dst: &mut Vec<u8>, src: &Vec<u8>)
    ensures
        final(dst)@ == old(dst)@ + src@,
{
    let n = src.len();
    let mut i: usize = 0;
    while i < n
        invariant
            i <= n,
            dst@ == old(dst)@ + src@.take(i as int),
        decreases n - i,
    {
        proof {
            assert(old(dst)@ + src@.take(i as int) + seq![src@[i as int]] =~= old(dst)@
                + src@.take(i + 1));
        }
        dst.push(src[i]);
        i = i + 1;
    }
    proof {
        assert(src@.take(n as int) =~= src@);
    }
}

/// The commitment that binds a block number, a total fee and the packed
/// transaction data.
pub open spec fn commitment_v(bn: nat, fee: nat, txdata: Seq<u8>) -> nat {
    reduced_v(sha256_of(sha256_of(be_bytes(bn, 32) + be_bytes(fee, 32)) + txdata))
}

/// Build the public-data commitment from the block number and total fee
/// (as field elements) and the packed per-transaction public data.
pub fn public_data_commitment(block_number: &Fel, total_fee: &Fel, txdata: &Vec<u8>) -> (r: Fel)
    requires
        fel_wf(*block_number),
        fel_wf(*total_fee),
    ensures
        fel_wf(r),
        fel_v(r) == commitment_v(fel_v(*block_number), fel_v(*total_fee), txdata@),
{
    let mut buf: Vec<u8> = Vec::new();
    extend_bytes(&mut buf, &block_number.b);
    extend_bytes(&mut buf, &total_fee.b);
    proof {
        lemma_be_bytes_canon(block_number.b@);
        lemma_be_bytes_canon(total_fee.b@);
        assert(buf@ =~= be_bytes(fel_v(*block_number), 32) + be_bytes(fel_v(*total_fee), 32));
    }
    let h1 = sha256(&buf);
    let mut buf2: Vec<u8> = Vec::new();
    extend_bytes(&mut buf2, &h1);
    extend_bytes(&mut buf2, txdata);
    proof {
        assert(buf2@ =~= sha256_of(buf@) + txdata@);
    }
    let h2 = sha256(&buf2);
    reduce_hash(&h2)
}

/// The commitment is a function of the block number, the total fee and
/// the packed transaction data alone: equal inputs give equal
/// commitments.
pub proof fn lemma_commitment_deterministic(
    bn1: nat,
    fee1: nat,
    txd1: Seq<u8>,
    bn2: nat,
    fee2: nat,
    txd2: Seq<u8>,
)
    requires
        bn1 == bn2,
        fee1 == fee2,
        txd1 == txd2,
    ensures
        commitment_v(bn1, fee1, txd1) == commitment_v(bn2, fee2, txd2),
{
}

} // verus!
