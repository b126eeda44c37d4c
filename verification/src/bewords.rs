//! Big-endian byte strings read as unsigned integers.
//!
//! Every 256-bit quantity in this crate (field elements, hash outputs)
//! travels as a big-endian byte string.  `be_value` is the number such a
//! string denotes; the lemmas here relate that number to slicing, to zero
//! prefixes and to the individual digits, which is what the codec, the
//! index extractor and the commitment builder need.

use vstd::prelude::*;

verus! {

use vstd::arithmetic::div_mod::lemma_fundamental_div_mod_converse;

pub open spec fn pow256(n: nat) -> nat
    decreases n,
{
    if n == 0 {
        1
    } else {
        256 * pow256((n - 1) as nat)
    }
}

pub proof fn lemma_pow256_pos(n: nat)
    ensures
        pow256(n) >= 1,
    decreases n,
{
    if n > 0 {
        lemma_pow256_pos((n - 1) as nat);
    }
}

pub proof fn lemma_pow256_adds(a: nat, b: nat)
    ensures
        pow256(a + b) == pow256(a) * pow256(b),
    decreases a,
{
    if a == 0 {
        assert(a + b == b);
        assert(pow256(0) == 1);
        assert(pow256(a) * pow256(b) == pow256(b));
    } else {
        lemma_pow256_adds((a - 1) as nat, b);
        assert(pow256(a + b) == 256 * pow256((a + b - 1) as nat));
        assert((a + b - 1) as nat == (a - 1) as nat + b);
        assert(pow256(a + b) == 256 * (pow256((a - 1) as nat) * pow256(b)));
        assert(256 * (pow256((a - 1) as nat) * pow256(b)) == (256 * pow256((a - 1) as nat))
            * pow256(b)) by (nonlinear_arith);
        assert(pow256(a) == 256 * pow256((a - 1) as nat));
        assert(pow256(a) * pow256(b) == (256 * pow256((a - 1) as nat)) * pow256(b));
    }
}

/// The unsigned integer that a byte string denotes, most significant byte
/// first.
pub open spec fn be_value(s: Seq<u8>) -> nat
    decreases s.len(),
{
    if s.len() == 0 {
        0
    } else {
        be_value(s.drop_last()) * 256 + s.last() as nat
    }
}

pub proof fn lemma_be_value_bound(s: Seq<u8>)
    ensures
        be_value(s) < pow256(s.len()),
    decreases s.len(),
{
    if s.len() > 0 {
        let d = s.drop_last();
        lemma_be_value_bound(d);
        assert(be_value(d) * 256 + 255 < 256 * pow256(d.len())) by (nonlinear_arith)
            requires
                be_value(d) < pow256(d.len()),
        ;
    }
}

pub proof fn lemma_be_value_zeros(s: Seq<u8>)
    requires
        forall|i: int| 0 <= i < s.len() ==> s[i] == 0,
    ensures
        be_value(s) == 0,
    decreases s.len(),
{
    if s.len() > 0 {
        lemma_be_value_zeros(s.drop_last());
    }
}

/// Splitting a byte string splits its value at the matching power of 256.
pub proof fn lemma_be_value_split(s: Seq<u8>, k: int)
    requires
        0 <= k <= s.len(),
    ensures
        be_value(s) == be_value(s.take(k)) * pow256((s.len() - k) as nat) + be_value(s.skip(k)),
    decreases s.len(),
{
    if k == s.len() {
        assert(s.take(k) =~= s);
        assert(s.skip(k) =~= Seq::<u8>::empty());
        assert(be_value(s.skip(k)) == 0);
        assert(pow256((s.len() - k) as nat) == 1);
        assert(be_value(s.take(k)) * 1 == be_value(s.take(k)));
    } else {
        let d = s.drop_last();
        lemma_be_value_split(d, k);
        assert(s.take(k) =~= d.take(k));
        assert(s.skip(k).drop_last() =~= d.skip(k));
        assert(s.skip(k).last() == s.last());
        let a = be_value(s.take(k));
        let p = pow256((d.len() - k) as nat);
        let e = be_value(d.skip(k));
        let lst = s.last() as nat;
        assert(be_value(s) == be_value(d) * 256 + lst);
        assert(be_value(d) == a * p + e);
        assert(be_value(s.skip(k)) == be_value(s.skip(k).drop_last()) * 256 + s.skip(k).last()
            as nat);
        assert(be_value(s.skip(k)) == e * 256 + lst);
        assert((a * p + e) * 256 + lst == a * (256 * p) + (e * 256 + lst)) by (nonlinear_arith);
        assert(pow256((s.len() - k) as nat) == 256 * pow256((s.len() - k - 1) as nat));
        assert((s.len() - k - 1) as nat == (d.len() - k) as nat);
        assert(be_value(s) == a * pow256((s.len() - k) as nat) + be_value(s.skip(k)));
    }
}

/// A string whose first `k` bytes are zero denotes the same number as its
/// last `len - k` bytes.
pub proof fn lemma_be_value_prefix_zero(s: Seq<u8>, k: int)
    requires
        0 <= k <= s.len(),
        forall|i: int| 0 <= i < k ==> s[i] == 0,
    ensures
        be_value(s) == be_value(s.skip(k)),
{
    lemma_be_value_split(s, k);
    assert(forall|i: int| 0 <= i < s.take(k).len() ==> s.take(k)[i] == 0);
    lemma_be_value_zeros(s.take(k));
}

/// Each byte of a string is a base-256 digit of its value.
pub proof fn lemma_be_digit(s: Seq<u8>, i: int)
    requires
        0 <= i < s.len(),
    ensures
        s[i] == (be_value(s) as int / pow256((s.len() - 1 - i) as nat) as int) % 256,
{
    let ll = (s.len() - 1 - i) as nat;
    lemma_be_value_split(s, i + 1);
    let t = s.take(i + 1);
    lemma_be_value_bound(s.skip(i + 1));
    lemma_pow256_pos(ll);
    lemma_fundamental_div_mod_converse(
        be_value(s) as int,
        pow256(ll) as int,
        be_value(t) as int,
        be_value(s.skip(i + 1)) as int,
    );
    assert(t.drop_last() =~= s.take(i));
    assert(be_value(t) == be_value(s.take(i)) * 256 + s[i]);
    lemma_fundamental_div_mod_converse(
        be_value(t) as int,
        256,
        be_value(s.take(i)) as int,
        s[i] as int,
    );
}

/// The canonical big-endian byte string of a number.
pub open spec fn be_bytes(v: nat, n: nat) -> Seq<u8> {
    Seq::new(n, |i: int| ((v as int / pow256((n - 1 - i) as nat) as int) % 256) as u8)
}

/// A byte string is the canonical string of the value it denotes.
pub proof fn lemma_be_bytes_canon(s: Seq<u8>)
    ensures
        s =~= be_bytes(be_value(s), s.len()),
{
    assert forall|i: int| 0 <= i < s.len() implies s[i] == be_bytes(be_value(s), s.len())[i] by {
        lemma_be_digit(s, i);
    }
}

/// Small powers of 256, spelled out.
pub proof fn lemma_pow256_values()
    ensures
        pow256(0) == 1,
        pow256(1) == 256,
        pow256(2) == 65536,
        pow256(3) == 0x1000000,
        pow256(4) == 0x100000000,
{
    assert(pow256(0) == 1);
    assert(pow256(1) == 256 * pow256(0));
    assert(pow256(2) == 256 * pow256(1));
    assert(pow256(3) == 256 * pow256(2));
    assert(pow256(4) == 256 * pow256(3));
}

/// The value of a string is below the bound its first byte gives.
pub proof fn lemma_be_value_head_bound(s: Seq<u8>)
    requires
        s.len() >= 1,
    ensures
        be_value(s) < (s[0] + 1) * pow256((s.len() - 1) as nat),
{
    lemma_be_value_split(s, 1);
    let t = s.take(1);
    assert(t.drop_last() =~= Seq::<u8>::empty());
    assert(be_value(t) == be_value(t.drop_last()) * 256 + t.last() as nat);
    assert(be_value(t) == s[0]);
    lemma_be_value_bound(s.skip(1));
    let p = pow256((s.len() - 1) as nat);
    assert(s[0] * p + p == (s[0] + 1) * p) by (nonlinear_arith);
}

} // verus!
