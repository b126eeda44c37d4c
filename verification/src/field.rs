//! Field elements of the proving curve's scalar field.
//!
//! A `Fel` carries the canonical 32-byte big-endian encoding of a number
//! below the field order.  The arithmetic itself (addition and subtraction
//! modulo the order, and embedding a machine integer) is done by the
//! outside curve library behind trusted wrappers; everything that only
//! reads the encoding — index extraction, serialization — is verified
//! here.

use vstd::prelude::*;

use pairing_ce::ff::{Field, PrimeField, PrimeFieldRepr};

verus! {

use crate::bewords::{
    be_value, be_bytes, pow256, lemma_be_value_zeros, lemma_be_value_split, lemma_be_value_bound,
    lemma_pow256_pos,
};
use vstd::arithmetic::div_mod::lemma_fundamental_div_mod_converse;

/// The order of the scalar field the prover works in.
pub open spec fn fr_modulus() -> nat {
    21888242871839275222246405745257275088548364400416034343698204186575808495617nat
}

/// A field element, kept as its canonical 32-byte big-endian encoding.
pub struct Fel {
    pub b: Vec<u8>,
}

/// The number a field element denotes.
pub open spec fn fel_v(f: Fel) -> nat {
    be_value(f.b@)
}

/// A well-formed field element: 32 bytes denoting a number below the
/// field order.
pub open spec fn fel_wf(f: Fel) -> bool {
    &&& f.b@.len() == 32
    &&& fel_v(f) < fr_modulus()
}

/// Relies on `pairing_ce`'s Bn256 scalar field: `read_be`/`from_repr`
/// accept the canonical big-endian encoding of a number below the field
/// order, `add_assign` adds modulo the order, and `write_be` emits the
/// canonical 32-byte big-endian encoding of the reduced sum.
#[verifier::external_body]
pub fn fr_add(a: &Fel, b: &Fel) -> (r: Fel)
    requires
        fel_wf(*a),
        fel_wf(*b),
    ensures
        fel_wf(r),
        fel_v(r) == (fel_v(*a) + fel_v(*b)) % fr_modulus(),
{
    let mut xr = pairing_ce::bn256::Fr::zero().into_repr();
    xr.read_be(&a.b[..]).unwrap();
    let mut x = pairing_ce::bn256::Fr::from_repr(xr).unwrap();
    let mut yr = pairing_ce::bn256::Fr::zero().into_repr();
    yr.read_be(&b.b[..]).unwrap();
    let y = pairing_ce::bn256::Fr::from_repr(yr).unwrap();
    x.add_assign(&y);
    let mut out = vec![0u8; 32];
    x.into_repr().write_be(&mut out[..]).unwrap();
    Fel { b: out }
}

/// Relies on `pairing_ce`'s Bn256 scalar field: as for `fr_add`, with
/// `sub_assign` subtracting modulo the field order.
#[verifier::external_body]
pub fn fr_sub(a: &Fel, b: &Fel) -> (r: Fel)
    requires
        fel_wf(*a),
        fel_wf(*b),
    ensures
        fel_wf(r),
        fel_v(r) as int == (fel_v(*a) + fr_modulus() - fel_v(*b)) % (fr_modulus() as int),
{
    let mut xr = pairing_ce::bn256::Fr::zero().into_repr();
    xr.read_be(&a.b[..]).unwrap();
    let mut x = pairing_ce::bn256::Fr::from_repr(xr).unwrap();
    let mut yr = pairing_ce::bn256::Fr::zero().into_repr();
    yr.read_be(&b.b[..]).unwrap();
    let y = pairing_ce::bn256::Fr::from_repr(yr).unwrap();
    x.sub_assign(&y);
    let mut out = vec![0u8; 32];
    x.into_repr().write_be(&mut out[..]).unwrap();
    Fel { b: out }
}

/// Relies on `pairing_ce`'s Bn256 scalar field: `from_str` parses a
/// decimal number below the field order, and `write_be` emits the
/// element's canonical 32-byte big-endian encoding, which for a number
/// below 2^128 is its zero-padded big-endian form.
#[verifier::external_body]
pub fn fel_from_u128(v: u128) -> (r: Fel)
    ensures
        fel_wf(r),
        fel_v(r) == v as nat,
        r.b@ == be_bytes(v as nat, 32),
{
    let f = pairing_ce::bn256::Fr::from_str(&format!("{}", v)).unwrap();
    let mut out = vec![0u8; 32];
    f.into_repr().write_be(&mut out[..]).unwrap();
    Fel { b: out }
}

/// The all-zero field element.
pub fn fel_zero() -> (r: Fel)
    ensures
        fel_wf(r),
        fel_v(r) == 0,
        r.b@.len() == 32,
        forall|i: int| 0 <= i < 32 ==> r.b@[i] == 0,
{
    let mut b: Vec<u8> = Vec::new();
    let mut i: usize = 0;
    while i < 32
        invariant
            i <= 32,
            b@.len() == i,
            forall|j: int| 0 <= j < i ==> b@[j] == 0,
        decreases 32 - i,
    {
        b.push(0u8);
        i = i + 1;
    }
    proof {
        lemma_be_value_zeros(b@);
    }
    Fel { b }
}

/// A by-value copy of a field element.
pub fn fel_copy(f: &Fel) -> (r: Fel)
    ensures
        r.b@ == f.b@,
{
    let n = f.b.len();
    let mut b: Vec<u8> = Vec::new();
    let mut i: usize = 0;
    while i < n
        invariant
            i <= n,
            n == f.b@.len(),
            b@.len() == i,
            forall|j: int| 0 <= j < i ==> b@[j] == f.b@[j],
        decreases n - i,
    {
        b.push(f.b[i]);
        i = i + 1;
    }
    proof {
        assert(b@ =~= f.b@);
    }
    Fel { b }
}

/// Byte-wise equality of two field elements.
pub fn fel_eq(a: &Fel, b: &Fel) -> (r: bool)
    requires
        a.b@.len() == 32,
        b.b@.len() == 32,
    ensures
        r <==> a.b@ == b.b@,
{
    let mut i: usize = 0;
    while i < 32
        invariant
            i <= 32,
            a.b@.len() == 32,
            b.b@.len() == 32,
            forall|j: int| 0 <= j < i ==> a.b@[j] == b.b@[j],
        decreases 32 - i,
    {
        if a.b[i] != b.b[i] {
            return false;
        }
        i = i + 1;
    }
    proof {
        assert(a.b@ =~= b.b@);
    }
    true
}

/// The 32-bit account index held in the low 32 bits of a field element's
/// canonical big-endian encoding.
pub fn field_element_to_u32(f: &Fel) -> (r: u32)
    requires
        f.b@.len() == 32,
    ensures
        r as nat == be_value(f.b@.skip(28)),
{
    let r: u32 = (f.b[28] as u32) * 0x1000000 + (f.b[29] as u32) * 0x10000 + (f.b[30] as u32)
        * 0x100 + (f.b[31] as u32);
    proof {
        let t = f.b@.skip(28);
        let t3 = t.drop_last();
        let t2 = t3.drop_last();
        let t1 = t2.drop_last();
        assert(t.len() == 4 && t3.len() == 3 && t2.len() == 2 && t1.len() == 1);
        assert(t1.drop_last() =~= Seq::<u8>::empty());
        assert(be_value(t1) == be_value(t1.drop_last()) * 256 + t1.last() as nat);
        assert(be_value(t2) == be_value(t1) * 256 + t2.last() as nat);
        assert(be_value(t3) == be_value(t2) * 256 + t3.last() as nat);
        assert(be_value(t) == be_value(t3) * 256 + t.last() as nat);
        assert(t1.last() == f.b@[28]);
        assert(t2.last() == f.b@[29]);
        assert(t3.last() == f.b@[30]);
        assert(t.last() == f.b@[31]);
    }
    r
}

/// The low 32 bits of the encoding are the element's value modulo 2^32.
pub proof fn lemma_low_bits_are_mod(s: Seq<u8>)
    requires
        s.len() == 32,
    ensures
        be_value(s.skip(28)) == be_value(s) % pow256(4),
{
    lemma_be_value_split(s, 28);
    lemma_be_value_bound(s.skip(28));
    lemma_pow256_pos(4);
    lemma_fundamental_div_mod_converse(
        be_value(s) as int,
        pow256(4) as int,
        be_value(s.take(28)) as int,
        be_value(s.skip(28)) as int,
    );
}

} // verus!
