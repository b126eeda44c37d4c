//! The fixed-point codec for transfer amounts and fees.
//!
//! An amount travels inside a field element as a packed window of
//! `E + M` low bits: the exponent in the high `E` bits of the window, the
//! mantissa in the low `M` bits, and the number denoted is
//! `mantissa * 10^exponent`.  Decoding rejects an element with any bit
//! set outside the window, and a value whose decoded number does not fit
//! in 128 bits.

use vstd::prelude::*;

verus! {

use vstd::arithmetic::power2::{pow2, lemma_pow2_adds, lemma_pow2_pos, lemma2_to64};
use vstd::arithmetic::div_mod::{lemma_fundamental_div_mod, lemma_fundamental_div_mod_converse};
use vstd::arithmetic::mul::lemma_mul_inequality;
use crate::bewords::{be_value, pow256, lemma_be_value_prefix_zero, lemma_be_value_split,
    lemma_be_value_zeros, lemma_be_digit, lemma_pow256_pos, lemma_pow256_values};
use crate::field::{Fel, fel_v, fel_wf, fel_from_u128};

/// Exponent bits of a packed transfer amount.
pub const AMOUNT_EXPONENT_BIT_WIDTH: u32 = 5;

/// Mantissa bits of a packed transfer amount.
pub const AMOUNT_MANTISSA_BIT_WIDTH: u32 = 11;

/// Exponent bits of a packed transfer fee.
pub const FEE_EXPONENT_BIT_WIDTH: u32 = 5;

/// Mantissa bits of a packed transfer fee.
pub const FEE_MANTISSA_BIT_WIDTH: u32 = 3;

pub open spec fn pow10(e: nat) -> nat
    decreases e,
{
    if e == 0 {
        1
    } else {
        10 * pow10((e - 1) as nat)
    }
}

pub proof fn lemma_pow10_pos(e: nat)
    ensures
        pow10(e) >= 1,
    decreases e,
{
    if e > 0 {
        lemma_pow10_pos((e - 1) as nat);
    }
}

pub proof fn lemma_pow10_increases(a: nat, b: nat)
    requires
        a <= b,
    ensures
        pow10(a) <= pow10(b),
    decreases b,
{
    if a < b {
        lemma_pow10_increases(a, (b - 1) as nat);
        lemma_pow10_pos((b - 1) as nat);
        assert(pow10(b) == 10 * pow10((b - 1) as nat));
    }
}

/// The packed window that holds mantissa `m` under exponent `e`, with the
/// exponent in the high bits.
pub open spec fn float_encode_v(m: nat, e: nat, mbits: nat) -> nat {
    e * pow2(mbits) + m
}

/// What decoding a field element of value `v` yields: the number
/// `mantissa * 10^exponent`, or nothing when bits outside the window are
/// set or the number does not fit in 128 bits.
pub open spec fn float_decode_v(v: nat, ebits: nat, mbits: nat) -> Option<nat> {
    if v >= pow2(ebits + mbits) {
        None
    } else {
        let e = v / pow2(mbits);
        let m = v % pow2(mbits);
        if m * pow10(e) < pow2(128) {
            Some(m * pow10(e))
        } else {
            None
        }
    }
}

pub proof fn lemma_pow2_128()
    ensures
        pow2(128) == u128::MAX + 1,
{
    lemma2_to64();
    vstd::arithmetic::power2::lemma2_to64_rest();
    lemma_pow2_adds(64, 64);
    assert(pow2(128) == pow2(64) * pow2(64));
}

/// Exact powers of two, for window bounds.
#[verifier::loop_isolation(false)]
pub fn pow2_u64(n: u64) -> (r: u64)
    requires
        n <= 63,
    ensures
        r as nat == pow2(n as nat),
        r >= 1,
{
    let mut r: u64 = 1;
    let mut i: u64 = 0;
    proof {
        lemma2_to64();
    }
    while i < n
        invariant
            i <= n,
            n <= 63,
            r as nat == pow2(i as nat),
            r >= 1,
        decreases n - i,
    {
        proof {
            lemma_pow2_adds(i as nat, 1);
            lemma2_to64();
            vstd::arithmetic::power2::lemma2_to64_rest();
            vstd::arithmetic::power2::lemma_pow2_strictly_increases((i + 1) as nat, 64);
        }
        r = r * 2;
        i = i + 1;
    }
    r
}

/// Decode the packed fixed-point number held in the low bits of a field
/// element.
#[verifier::loop_isolation(false)]
pub fn float_decode(f: &Fel, ebits: u32, mbits: u32) -> (r: Option<u128>)
    requires
        f.b@.len() == 32,
        1 <= mbits,
        1 <= ebits,
        ebits + mbits <= 16,
    ensures
        match r {
            Some(x) => float_decode_v(fel_v(*f), ebits as nat, mbits as nat) == Some(x as nat),
            None => float_decode_v(fel_v(*f), ebits as nat, mbits as nat) is None,
        },
{
    proof {
        lemma2_to64();
    }
    let mut i: usize = 0;
    while i < 30
        invariant
            i <= 30,
            f.b@.len() == 32,
            forall|j: int| 0 <= j < i ==> f.b@[j] == 0,
        decreases 30 - i,
    {
        if f.b[i] != 0 {
            proof {
                lemma_be_value_split(f.b@, 30);
                let t = f.b@.take(30);
                if be_value(t) == 0 {
                    lemma_be_digit(t, i as int);
                    lemma_pow256_pos((t.len() - 1 - i) as nat);
                    assert((0int / pow256((t.len() - 1 - i) as nat) as int) % 256 == 0);
                    assert(false);
                }
                assert(be_value(f.b@) >= pow256(2)) by {
                    lemma_mul_inequality(1, be_value(t) as int, pow256(2) as int);
                }
                lemma_pow256_values();
                if (ebits + mbits) as nat != 16 {
                    vstd::arithmetic::power2::lemma_pow2_strictly_increases(
                        (ebits + mbits) as nat,
                        16,
                    );
                }
            }
            return None;
        }
        i = i + 1;
    }
    let w: u64 = (f.b[30] as u64) * 256 + (f.b[31] as u64);
    proof {
        lemma_be_value_prefix_zero(f.b@, 30);
        let t = f.b@.skip(30);
        let t1 = t.drop_last();
        assert(t.len() == 2 && t1.len() == 1);
        assert(t1.drop_last() =~= Seq::<u8>::empty());
        assert(be_value(t1) == be_value(t1.drop_last()) * 256 + t1.last() as nat);
        assert(be_value(t) == be_value(t1) * 256 + t.last() as nat);
        assert(t1.last() == f.b@[30]);
        assert(t.last() == f.b@[31]);
        assert(fel_v(*f) == w as nat);
    }
    let lim: u64 = pow2_u64((ebits + mbits) as u64);
    if w >= lim {
        return None;
    }
    let mb: u64 = pow2_u64(mbits as u64);
    let e: u64 = w / mb;
    let m: u64 = w % mb;
    proof {
        assert(e as nat == (w as nat) / pow2(mbits as nat));
        assert(m as nat == (w as nat) % pow2(mbits as nat));
    }
    if m == 0 {
        proof {
            assert(0nat * pow10(e as nat) == 0);
            lemma_pow2_128();
        }
        return Some(0);
    }
    let mut p: u128 = 1;
    let mut j: u64 = 0;
    while j < e
        invariant
            j <= e,
            m >= 1,
            p as nat == pow10(j as nat),
            float_decode_v(fel_v(*f), ebits as nat, mbits as nat) == (if (m as nat) * pow10(
                e as nat,
            ) < pow2(128) {
                Some((m as nat) * pow10(e as nat))
            } else {
                None::<nat>
            }),
            (m as nat) == fel_v(*f) % pow2(mbits as nat),
            (e as nat) == fel_v(*f) / pow2(mbits as nat),
        decreases e - j,
    {
        if p > u128::MAX / 10 {
            proof {
                lemma_fundamental_div_mod(u128::MAX as int, 10);
                assert(p as int * 10 > u128::MAX);
                assert(pow10((j + 1) as nat) == 10 * pow10(j as nat));
                lemma_pow10_increases((j + 1) as nat, e as nat);
                lemma_mul_inequality(1, m as int, pow10(e as nat) as int);
                lemma_pow2_128();
            }
            return None;
        }
        proof {
            lemma_fundamental_div_mod(u128::MAX as int, 10);
            lemma_mul_inequality(p as int, (u128::MAX / 10) as int, 10);
        }
        p = p * 10;
        j = j + 1;
    }
    proof {
        lemma_pow10_pos(e as nat);
    }
    if m as u128 > u128::MAX / p {
        proof {
            lemma_fundamental_div_mod(u128::MAX as int, p as int);
            assert(m as int * p as int >= (u128::MAX / p + 1) as int * p as int) by {
                lemma_mul_inequality((u128::MAX / p + 1) as int, m as int, p as int);
            }
            assert((u128::MAX / p + 1) as int * p as int == (u128::MAX / p) as int * p as int
                + p as int) by (nonlinear_arith);
            lemma_pow2_128();
        }
        return None;
    }
    proof {
        lemma_fundamental_div_mod(u128::MAX as int, p as int);
        lemma_mul_inequality(m as int, (u128::MAX / p) as int, p as int);
        lemma_pow2_128();
    }
    Some((m as u128) * p)
}

/// Encode a mantissa/exponent pair as a field element with the packed
/// window in its low bits.
pub fn float_encode(mantissa: u64, exponent: u64, ebits: u32, mbits: u32) -> (r: Fel)
    requires
        1 <= mbits,
        1 <= ebits,
        ebits + mbits <= 16,
        (mantissa as nat) < pow2(mbits as nat),
        (exponent as nat) < pow2(ebits as nat),
    ensures
        fel_wf(r),
        fel_v(r) == float_encode_v(mantissa as nat, exponent as nat, mbits as nat),
{
    let mb: u64 = pow2_u64(mbits as u64);
    proof {
        lemma_pow2_adds(ebits as nat, mbits as nat);
        assert((exponent as int) * (mb as int) + (mantissa as int) < pow2((ebits + mbits) as nat))
            by (nonlinear_arith)
            requires
                (exponent as int) < pow2(ebits as nat),
                (mantissa as int) < pow2(mbits as nat),
                mb as nat == pow2(mbits as nat),
                pow2((ebits + mbits) as nat) == pow2(ebits as nat) * pow2(mbits as nat),
        ;
        lemma2_to64();
        if (ebits + mbits) as nat != 16 {
            vstd::arithmetic::power2::lemma_pow2_strictly_increases((ebits + mbits) as nat, 16);
        }
    }
    let w: u64 = exponent * mb + mantissa;
    fel_from_u128(w as u128)
}

/// Decoding recovers exactly what was encoded, for every mantissa and
/// exponent within the configured widths whose number fits in 128 bits.
pub proof fn lemma_float_round_trip(m: nat, e: nat, ebits: nat, mbits: nat)
    requires
        1 <= mbits,
        1 <= ebits,
        ebits + mbits <= 16,
        m < pow2(mbits),
        e < pow2(ebits),
        m * pow10(e) < pow2(128),
    ensures
        float_decode_v(float_encode_v(m, e, mbits), ebits, mbits) == Some(m * pow10(e)),
{
    let v = float_encode_v(m, e, mbits);
    lemma_pow2_adds(ebits, mbits);
    lemma_pow2_pos(mbits);
    assert(e * pow2(mbits) + m < pow2(ebits) * pow2(mbits)) by (nonlinear_arith)
        requires
            e < pow2(ebits),
            m < pow2(mbits),
            pow2(mbits) >= 1,
    ;
    lemma_fundamental_div_mod_converse(v as int, pow2(mbits) as int, e as int, m as int);
}


proof fn lemma_pow10_31()
    ensures
        pow10(31) == 10000000000000000000000000000000nat,
{
    assert(pow10(0) == 1);
    assert(pow10(1) == 10 * pow10(0));
    assert(pow10(2) == 10 * pow10(1));
    assert(pow10(3) == 10 * pow10(2));
    assert(pow10(4) == 10 * pow10(3));
    assert(pow10(5) == 10 * pow10(4));
    assert(pow10(6) == 10 * pow10(5));
    assert(pow10(7) == 10 * pow10(6));
    assert(pow10(8) == 10 * pow10(7));
    assert(pow10(9) == 10 * pow10(8));
    assert(pow10(10) == 10 * pow10(9));
    assert(pow10(11) == 10 * pow10(10));
    assert(pow10(12) == 10 * pow10(11));
    assert(pow10(13) == 10 * pow10(12));
    assert(pow10(14) == 10 * pow10(13));
    assert(pow10(15) == 10 * pow10(14));
    assert(pow10(16) == 10 * pow10(15));
    assert(pow10(17) == 10 * pow10(16));
    assert(pow10(18) == 10 * pow10(17));
    assert(pow10(19) == 10 * pow10(18));
    assert(pow10(20) == 10 * pow10(19));
    assert(pow10(21) == 10 * pow10(20));
    assert(pow10(22) == 10 * pow10(21));
    assert(pow10(23) == 10 * pow10(22));
    assert(pow10(24) == 10 * pow10(23));
    assert(pow10(25) == 10 * pow10(24));
    assert(pow10(26) == 10 * pow10(25));
    assert(pow10(27) == 10 * pow10(26));
    assert(pow10(28) == 10 * pow10(27));
    assert(pow10(29) == 10 * pow10(28));
    assert(pow10(30) == 10 * pow10(29));
    assert(pow10(31) == 10 * pow10(30));
}

/// Round trip for the configured amount widths: every in-range pair
/// decodes back exactly, with no further condition, since the widest
/// amount is 2047 * 10^31, well below 2^128.
pub proof fn lemma_amount_round_trip(m: nat, e: nat)
    requires
        m < pow2(AMOUNT_MANTISSA_BIT_WIDTH as nat),
        e < pow2(AMOUNT_EXPONENT_BIT_WIDTH as nat),
    ensures
        float_decode_v(
            float_encode_v(m, e, AMOUNT_MANTISSA_BIT_WIDTH as nat),
            AMOUNT_EXPONENT_BIT_WIDTH as nat,
            AMOUNT_MANTISSA_BIT_WIDTH as nat,
        ) == Some(m * pow10(e)),
{
    lemma2_to64();
    lemma_pow10_31();
    lemma_pow10_increases(e, 31);
    assert(m * pow10(e) <= 2047 * pow10(31)) by (nonlinear_arith)
        requires
            m <= 2047,
            pow10(e) <= pow10(31),
    ;
    lemma_pow2_128();
    lemma_float_round_trip(m, e, AMOUNT_EXPONENT_BIT_WIDTH as nat,
        AMOUNT_MANTISSA_BIT_WIDTH as nat);
}

/// Round trip for the configured fee widths, likewise unconditional.
pub proof fn lemma_fee_round_trip(m: nat, e: nat)
    requires
        m < pow2(FEE_MANTISSA_BIT_WIDTH as nat),
        e < pow2(FEE_EXPONENT_BIT_WIDTH as nat),
    ensures
        float_decode_v(
            float_encode_v(m, e, FEE_MANTISSA_BIT_WIDTH as nat),
            FEE_EXPONENT_BIT_WIDTH as nat,
            FEE_MANTISSA_BIT_WIDTH as nat,
        ) == Some(m * pow10(e)),
{
    lemma2_to64();
    lemma_pow10_31();
    lemma_pow10_increases(e, 31);
    assert(m * pow10(e) <= 7 * pow10(31)) by (nonlinear_arith)
        requires
            m <= 7,
            pow10(e) <= pow10(31),
    ;
    lemma_pow2_128();
    lemma_float_round_trip(m, e, FEE_EXPONENT_BIT_WIDTH as nat, FEE_MANTISSA_BIT_WIDTH as nat);
}

/// A value with any bit outside the packed window set never decodes.
pub proof fn lemma_float_decode_out_of_range(v: nat, ebits: nat, mbits: nat)
    requires
        v >= pow2(ebits + mbits),
    ensures
        float_decode_v(v, ebits, mbits) is None,
{
}

} // verus!
