//! IEEE 754 binary64 encodings computed with integers: the bits of an
//! integer converted to `f64` (round to nearest, ties to even), and the
//! integer facts that the language reads back from such bits (`as i64`,
//! whether a value is integral, ordering).

use vstd::prelude::*;

verus! {

pub open spec fn two_pow(e: nat) -> nat
    decreases e,
{
    if e == 0 {
        1
    } else {
        2 * two_pow((e - 1) as nat)
    }
}

pub proof fn lemma_two_pow_pos(e: nat)
    ensures
        two_pow(e) >= 1,
    decreases e,
{
    if e > 0 {
        lemma_two_pow_pos((e - 1) as nat);
    }
}

pub proof fn lemma_two_pow_adds(a: nat, b: nat)
    ensures
        two_pow(a + b) == two_pow(a) * two_pow(b),
    decreases a,
{
    if a > 0 {
        lemma_two_pow_adds((a - 1) as nat, b);
        assert(two_pow(a) == 2 * two_pow((a - 1) as nat));
        assert(two_pow(a + b) == 2 * two_pow((a - 1 + b) as nat));
        assert(two_pow((a - 1 + b) as nat) == two_pow((a - 1) as nat) * two_pow(b));
        assert(2 * (two_pow((a - 1) as nat) * two_pow(b)) == (2 * two_pow((a - 1) as nat))
            * two_pow(b)) by (nonlinear_arith);
    } else {
        assert(a == 0);
        assert(two_pow(a) == 1);
        assert(a + b == b);
    }
}

pub proof fn lemma_two_pow_mono(a: nat, b: nat)
    requires
        a <= b,
    ensures
        two_pow(a) <= two_pow(b),
    decreases b,
{
    if a < b {
        lemma_two_pow_mono(a, (b - 1) as nat);
        lemma_two_pow_pos((b - 1) as nat);
    }
}

pub proof fn lemma_two_pow_values()
    ensures
        two_pow(10) == 0x400,
        two_pow(12) == 0x1000,
        two_pow(11) == 0x800,
        two_pow(52) == 0x10_0000_0000_0000,
        two_pow(53) == 0x20_0000_0000_0000,
        two_pow(63) == 0x8000_0000_0000_0000,
        two_pow(64) == 0x1_0000_0000_0000_0000,
{
    reveal_with_fuel(two_pow, 13);
    assert(two_pow(8) == 0x100);
    assert(two_pow(10) == 0x400);
    assert(two_pow(11) == 0x800);
    assert(two_pow(12) == 0x1000);
    lemma_two_pow_adds(11, 11);
    assert(two_pow(22) == 0x40_0000);
    lemma_two_pow_adds(22, 22);
    assert(two_pow(44) == 0x1000_0000_0000);
    lemma_two_pow_adds(44, 8);
    assert(two_pow(52) == 0x10_0000_0000_0000);
    lemma_two_pow_adds(52, 1);
    assert(two_pow(1) == 2);
    assert(two_pow(53) == 0x20_0000_0000_0000);
    lemma_two_pow_adds(52, 11);
    lemma_two_pow_adds(63, 1);
}

/// `2^e` for a shift below 64.
pub fn pow2_u64(e: u64) -> (r: u64)
    requires
        e < 64,
    ensures
        r == two_pow(e as nat),
{
    proof {
        lemma_two_pow_values();
    }
    let mut r: u64 = 1;
    let mut i: u64 = 0;
    while i < e
        invariant
            i <= e < 64,
            r == two_pow(i as nat),
        decreases e - i,
    {
        proof {
            lemma_two_pow_values();
            lemma_two_pow_mono((i + 1) as nat, 63);
            assert(two_pow((i + 1) as nat) == 2 * two_pow(i as nat));
        }
        r = r * 2;
        i = i + 1;
    }
    r
}

/// The number of binary digits of `a`.
pub open spec fn bit_length(a: nat) -> nat
    decreases a,
{
    if a == 0 {
        0
    } else {
        1 + bit_length(a / 2)
    }
}

pub proof fn lemma_bit_length(a: nat)
    ensures
        a == 0 ==> bit_length(a) == 0,
        a > 0 ==> two_pow((bit_length(a) - 1) as nat) <= a < two_pow(bit_length(a)),
    decreases a,
{
    if a > 0 {
        lemma_bit_length(a / 2);
        if a / 2 > 0 {
            assert(two_pow((bit_length(a) - 1) as nat) == 2 * two_pow(
                (bit_length(a / 2) - 1) as nat,
            ));
        }
    }
}

pub proof fn lemma_bit_length_at_most(a: nat, e: nat)
    requires
        a < two_pow(e),
    ensures
        bit_length(a) <= e,
{
    lemma_bit_length(a);
    if a > 0 && bit_length(a) > e {
        lemma_two_pow_mono(e, (bit_length(a) - 1) as nat);
    }
}

/// `a` scaled by a power of two so that its top bit is bit 63.
pub open spec fn significand64(a: nat) -> nat {
    a * two_pow((64 - bit_length(a)) as nat)
}

/// The 53-bit significand of `m / 2^11`, rounded to nearest with ties to even.
pub open spec fn round_half_even(m: nat) -> nat {
    let q = m / 2048;
    let r = m % 2048;
    if r > 1024 || (r == 1024 && q % 2 == 1) {
        q + 1
    } else {
        q
    }
}

/// The binary64 encoding of the integer `x` (with `|x| < 2^64`), rounded to
/// nearest with ties to even: what `x as f64` gives, as bits.
pub open spec fn f64_of_int(x: int) -> u64 {
    if x == 0 {
        0
    } else {
        let a = (if x < 0 {
            -x
        } else {
            x
        }) as nat;
        let k = bit_length(a);
        let q = round_half_even(significand64(a));
        let sig = if q == two_pow(53) {
            two_pow(52)
        } else {
            q
        };
        let biased = if q == two_pow(53) {
            k + 1023
        } else {
            k + 1022
        };
        let s: int = if x < 0 {
            two_pow(63) as int
        } else {
            0
        };
        (s + biased * two_pow(52) + (sig - two_pow(52))) as u64
    }
}

/// Bits of `(if neg { -a } else { a }) as f64` for a magnitude `a`.
pub fn f64_bits_of(neg: bool, a: u64) -> (r: u64)
    ensures
        r == f64_of_int(if neg {
            -(a as int)
        } else {
            a as int
        }),
{
    let ghost x: int = if neg {
        -(a as int)
    } else {
        a as int
    };
    if a == 0 {
        return 0;
    }
    proof {
        lemma_two_pow_values();
        lemma_bit_length(a as nat);
        lemma_bit_length_at_most(a as nat, 64);
    }
    // bit length
    let mut t: u64 = a;
    let mut k: u64 = 0;
    while t > 0
        invariant
            bit_length(a as nat) == k + bit_length(t as nat),
            bit_length(a as nat) <= 64,
        decreases t,
    {
        t = t / 2;
        k = k + 1;
    }
    // normalise so that the top bit is bit 63
    let mut m: u64 = a;
    let mut j: u64 = k;
    proof {
        assert(two_pow(0) == 1);
        assert(a * two_pow(0) == a);
    }
    while j < 64
        invariant
            k <= j <= 64,
            k == bit_length(a as nat),
            k >= 1,
            a < two_pow(k as nat),
            m == a * two_pow((j - k) as nat),
            m < two_pow(j as nat),
        decreases 64 - j,
    {
        proof {
            lemma_two_pow_values();
            lemma_two_pow_mono((j + 1) as nat, 64);
            assert(two_pow((j + 1) as nat) == 2 * two_pow(j as nat));
            assert(a * two_pow((j + 1 - k) as nat) == 2 * (a * two_pow((j - k) as nat))) by {
                assert(two_pow((j + 1 - k) as nat) == 2 * two_pow((j - k) as nat));
                assert(a * (2 * two_pow((j - k) as nat)) == 2 * (a * two_pow((j - k) as nat)))
                    by (nonlinear_arith);
            }
        }
        m = m * 2;
        j = j + 1;
    }
    assert(m == significand64(a as nat));
    let q0 = m / 2048;
    let rem = m % 2048;
    let q: u64 = if rem > 1024 || (rem == 1024 && q0 % 2 == 1) {
        q0 + 1
    } else {
        q0
    };
    assert(q == round_half_even(m as nat));
    proof {
        lemma_two_pow_mono(k as nat, 64);
        assert(m >= two_pow(63)) by {
            lemma_bit_length(a as nat);
            lemma_two_pow_adds((k - 1) as nat, (64 - k) as nat);
            assert(two_pow((k - 1) as nat) <= a);
            assert(two_pow((k - 1) as nat) * two_pow((64 - k) as nat) <= a * two_pow(
                (64 - k) as nat,
            )) by (nonlinear_arith)
                requires
                    two_pow((k - 1) as nat) <= a,
            ;
        }
    }
    let (sig, biased): (u64, u64) = if q == 0x20_0000_0000_0000u64 {
        (0x10_0000_0000_0000u64, k + 1023)
    } else {
        (q, k + 1022)
    };
    let s: u64 = if neg {
        0x8000_0000_0000_0000u64
    } else {
        0
    };
    s + biased * 0x10_0000_0000_0000u64 + (sig - 0x10_0000_0000_0000u64)
}

/// The integer nearest to `a` that binary64 can hold (ties to even): the
/// value of `a as f64`, for `0 < a < 2^64`.
pub open spec fn rounded_magnitude(a: nat) -> nat {
    let k = bit_length(a);
    if k <= 53 {
        a
    } else {
        round_half_even(significand64(a)) * two_pow((k - 53) as nat)
    }
}

/// `bit_length(a)` and `significand64(a)` for `a > 0`.
fn normalize(a: u64) -> (r: (u64, u64))
    requires
        a > 0,
    ensures
        r.0 == bit_length(a as nat),
        1 <= r.0 <= 64,
        r.1 == significand64(a as nat),
        r.1 >= 0x8000_0000_0000_0000,
{
    proof {
        lemma_two_pow_values();
        lemma_bit_length(a as nat);
        lemma_bit_length_at_most(a as nat, 64);
    }
    let mut t: u64 = a;
    let mut k: u64 = 0;
    while t > 0
        invariant
            bit_length(a as nat) == k + bit_length(t as nat),
            bit_length(a as nat) <= 64,
        decreases t,
    {
        t = t / 2;
        k = k + 1;
    }
    let mut m: u64 = a;
    let mut j: u64 = k;
    proof {
        assert(two_pow(0) == 1);
        assert(a * two_pow(0) == a);
    }
    while j < 64
        invariant
            k <= j <= 64,
            k == bit_length(a as nat),
            k >= 1,
            a < two_pow(k as nat),
            m == a * two_pow((j - k) as nat),
            m < two_pow(j as nat),
        decreases 64 - j,
    {
        proof {
            lemma_two_pow_values();
            lemma_two_pow_mono((j + 1) as nat, 64);
            assert(two_pow((j + 1) as nat) == 2 * two_pow(j as nat));
            assert(a * two_pow((j + 1 - k) as nat) == 2 * (a * two_pow((j - k) as nat))) by {
                assert(two_pow((j + 1 - k) as nat) == 2 * two_pow((j - k) as nat));
                assert(a * (2 * two_pow((j - k) as nat)) == 2 * (a * two_pow((j - k) as nat)))
                    by (nonlinear_arith);
            }
        }
        m = m * 2;
        j = j + 1;
    }
    proof {
        lemma_two_pow_values();
        lemma_two_pow_adds((k - 1) as nat, (64 - k) as nat);
        assert(two_pow((k - 1) as nat) <= a);
        assert(two_pow((k - 1) as nat) * two_pow((64 - k) as nat) <= a * two_pow((64 - k) as nat))
            by (nonlinear_arith)
            requires
                two_pow((k - 1) as nat) <= a,
        ;
    }
    (k, m)
}

/// The value of `a as f64` for `a > 0`.
pub fn round_magnitude(a: u64) -> (r: u128)
    requires
        a > 0,
    ensures
        r == rounded_magnitude(a as nat),
{
    let (k, m) = normalize(a);
    if k <= 53 {
        return a as u128;
    }
    let q0 = m / 2048;
    let rem = m % 2048;
    let q: u64 = if rem > 1024 || (rem == 1024 && q0 % 2 == 1) {
        q0 + 1
    } else {
        q0
    };
    let p = pow2_u64(k - 53);
    proof {
        lemma_two_pow_values();
        lemma_two_pow_mono((k - 53) as nat, 11);
        assert((q as nat) * (p as nat) <= 0x20_0000_0000_0000nat * 0x800nat) by (nonlinear_arith)
            requires
                q <= 0x20_0000_0000_0000nat,
                p <= 0x800nat,
        ;
    }
    (q as u128) * (p as u128)
}

/// Rounding a magnitude of at most `2^63` gives at most `2^63`.
pub proof fn lemma_rounded_magnitude_bound(a: nat)
    requires
        0 < a <= 0x8000_0000_0000_0000,
    ensures
        rounded_magnitude(a) <= 0x8000_0000_0000_0000,
{
    lemma_two_pow_values();
    lemma_bit_length(a);
    lemma_bit_length_at_most(a, 64);
    let k = bit_length(a);
    if k > 53 {
        let m = significand64(a);
        let p = two_pow((64 - k) as nat);
        lemma_two_pow_pos((64 - k) as nat);
        lemma_two_pow_adds((k - 1) as nat, (64 - k) as nat);
        lemma_two_pow_adds(k, (64 - k) as nat);
        assert(m < two_pow(64)) by (nonlinear_arith)
            requires
                m == a * p,
                a < two_pow(k),
                two_pow(k) * p == two_pow(64),
                p >= 1,
        ;
        let q = round_half_even(m);
        assert(q <= 0x20_0000_0000_0000);
        lemma_two_pow_adds(53, (k - 53) as nat);
        assert(53 + (k - 53) == k);
        if k == 64 {
            assert(two_pow((k - 1) as nat) == 0x8000_0000_0000_0000);
            assert(a == 0x8000_0000_0000_0000);
            assert(p == 1);
            assert(m == a);
            assert(q == 0x10_0000_0000_0000);
            assert(q * two_pow(11) == 0x8000_0000_0000_0000);
        } else {
            lemma_two_pow_mono(k, 63);
            assert(q * two_pow((k - 53) as nat) <= two_pow(53) * two_pow((k - 53) as nat))
                by (nonlinear_arith)
                requires
                    q <= two_pow(53),
            ;
        }
    }
}

/* Reading bits back. */

pub open spec fn f64_negative(b: u64) -> bool {
    b >= 0x8000_0000_0000_0000
}

pub open spec fn f64_exponent(b: u64) -> nat {
    ((b / 0x10_0000_0000_0000) % 2048) as nat
}

pub open spec fn f64_fraction(b: u64) -> nat {
    (b % 0x10_0000_0000_0000) as nat
}

pub open spec fn f64_is_nan(b: u64) -> bool {
    f64_exponent(b) == 2047 && f64_fraction(b) != 0
}

pub open spec fn f64_is_infinite(b: u64) -> bool {
    f64_exponent(b) == 2047 && f64_fraction(b) == 0
}

/// The significand of a normal double (fraction with the hidden bit).
pub open spec fn f64_significand(b: u64) -> nat {
    f64_fraction(b) + 0x10_0000_0000_0000
}

/// The magnitude of a finite double truncated toward zero. Zero and
/// subnormal values are below one; a normal value is
/// `significand * 2^(exponent - 1075)`.
pub open spec fn f64_trunc_magnitude(b: u64) -> nat {
    let e = f64_exponent(b);
    if e == 0 {
        0
    } else if e >= 1075 {
        f64_significand(b) * two_pow((e - 1075) as nat)
    } else {
        f64_significand(b) / two_pow((1075 - e) as nat)
    }
}

/// Whether a double is finite and has no fractional part (`x.fract() == 0.0`).
pub open spec fn f64_is_integral(b: u64) -> bool {
    let e = f64_exponent(b);
    if e == 2047 {
        false
    } else if e == 0 {
        f64_fraction(b) == 0
    } else if e >= 1075 {
        true
    } else {
        f64_significand(b) % two_pow((1075 - e) as nat) == 0
    }
}

/// `x as i64` for the double with bits `b`: truncation toward zero,
/// saturating at the bounds of `i64`, and 0 for NaN.
pub open spec fn f64_to_i64(b: u64) -> int {
    if f64_is_nan(b) {
        0
    } else if f64_is_infinite(b) {
        if f64_negative(b) {
            i64::MIN as int
        } else {
            i64::MAX as int
        }
    } else {
        let m = f64_trunc_magnitude(b) as int;
        if f64_negative(b) {
            if m > 0x8000_0000_0000_0000 {
                i64::MIN as int
            } else {
                -m
            }
        } else {
            if m > i64::MAX {
                i64::MAX as int
            } else {
                m
            }
        }
    }
}

/// The magnitude of a finite double truncated toward zero, when it is
/// below `2^64`.
pub fn trunc_magnitude(b: u64) -> (r: Option<u64>)
    requires
        f64_exponent(b) != 2047,
    ensures
        r matches Some(m) ==> m == f64_trunc_magnitude(b),
        r is None ==> f64_trunc_magnitude(b) >= two_pow(64),
{
    proof {
        lemma_two_pow_values();
    }
    let e = (b / 0x10_0000_0000_0000u64) % 2048;
    let sig = b % 0x10_0000_0000_0000u64 + 0x10_0000_0000_0000u64;
    if e == 0 {
        Some(0)
    } else if e >= 1075 {
        if e - 1075 >= 12 {
            proof {
                lemma_two_pow_mono(12, (e - 1075) as nat);
                assert(sig * two_pow((e - 1075) as nat) >= 0x10_0000_0000_0000nat * 0x1000nat)
                    by (nonlinear_arith)
                    requires
                        sig >= 0x10_0000_0000_0000nat,
                        two_pow((e - 1075) as nat) >= 0x1000nat,
                ;
            }
            None
        } else {
            let p = pow2_u64(e - 1075);
            proof {
                lemma_two_pow_mono((e - 1075) as nat, 11);
                assert(sig * p < 0x20_0000_0000_0000nat * 0x800nat) by (nonlinear_arith)
                    requires
                        sig < 0x20_0000_0000_0000nat,
                        p <= 0x800nat,
                ;
            }
            Some(sig * p)
        }
    } else {
        let sh = 1075 - e;
        if sh >= 64 {
            proof {
                lemma_two_pow_mono(64, sh as nat);
                assert((sig as nat) / two_pow(sh as nat) == 0) by (nonlinear_arith)
                    requires
                        sig < two_pow(sh as nat),
                ;
            }
            Some(0)
        } else {
            let p = pow2_u64(sh);
            proof {
                lemma_two_pow_pos(sh as nat);
            }
            Some(sig / p)
        }
    }
}

/// `x as i64` for the double with bits `b`.
pub fn f64_bits_to_i64(b: u64) -> (r: i64)
    ensures
        r as int == f64_to_i64(b),
{
    let e = (b / 0x10_0000_0000_0000u64) % 2048;
    let frac = b % 0x10_0000_0000_0000u64;
    let neg = b >= 0x8000_0000_0000_0000u64;
    if e == 2047 {
        if frac != 0 {
            0
        } else if neg {
            i64::MIN
        } else {
            i64::MAX
        }
    } else {
        match trunc_magnitude(b) {
            None => {
                proof {
                    lemma_two_pow_values();
                }
                if neg {
                    i64::MIN
                } else {
                    i64::MAX
                }
            },
            Some(m) => {
                if neg {
                    if m >= 0x8000_0000_0000_0000u64 {
                        i64::MIN
                    } else {
                        -(m as i64)
                    }
                } else {
                    if m > 0x7fff_ffff_ffff_ffffu64 {
                        i64::MAX
                    } else {
                        m as i64
                    }
                }
            },
        }
    }
}

/// Whether the double is zero (either sign): `x == 0.0`.
pub open spec fn f64_is_zero(b: u64) -> bool {
    b % 0x8000_0000_0000_0000 == 0
}

pub fn is_zero_bits(b: u64) -> (r: bool)
    ensures
        r == f64_is_zero(b),
{
    b % 0x8000_0000_0000_0000u64 == 0
}

/// Whether the double is an integer of magnitude below `10^15`
/// (`x.fract() == 0.0 && x.abs() < 1e15`).
pub open spec fn f64_small_integral(b: u64) -> bool {
    f64_is_integral(b) && f64_trunc_magnitude(b) < 1_000_000_000_000_000
}

pub fn small_integral_bits(b: u64) -> (r: bool)
    ensures
        r == f64_small_integral(b),
{
    proof {
        lemma_two_pow_values();
    }
    let e = (b / 0x10_0000_0000_0000u64) % 2048;
    let frac = b % 0x10_0000_0000_0000u64;
    let sig = frac + 0x10_0000_0000_0000u64;
    if e == 2047 {
        false
    } else if e == 0 {
        frac == 0
    } else if e >= 1075 {
        proof {
            lemma_two_pow_pos((e - 1075) as nat);
            assert(sig * two_pow((e - 1075) as nat) >= sig) by (nonlinear_arith)
                requires
                    two_pow((e - 1075) as nat) >= 1,
            ;
        }
        false
    } else {
        let sh = 1075 - e;
        if sh >= 64 {
            proof {
                lemma_two_pow_mono(64, sh as nat);
                assert((sig as nat) % two_pow(sh as nat) == sig) by (nonlinear_arith)
                    requires
                        sig < two_pow(sh as nat),
                ;
            }
            false
        } else {
            let p = pow2_u64(sh);
            proof {
                lemma_two_pow_pos(sh as nat);
            }
            sig % p == 0 && sig / p < 1_000_000_000_000_000u64
        }
    }
}

/// The position of a non-NaN double in the order of values: its magnitude
/// bits, negated for negative values (so both zeros are 0).
pub open spec fn f64_order_key(b: u64) -> int {
    let m = (b % 0x8000_0000_0000_0000) as int;
    if f64_negative(b) {
        -m
    } else {
        m
    }
}

/// IEEE 754 comparison of two doubles, as Rust's `==`, `!=`, `<`, `<=`,
/// `>`, `>=` on `f64` give it: any comparison with NaN is false, except `!=`.
pub open spec fn f64_compare(a: u64, b: u64, op: Seq<char>) -> bool {
    let ordered = !f64_is_nan(a) && !f64_is_nan(b);
    let ka = f64_order_key(a);
    let kb = f64_order_key(b);
    if op == seq!['=', '='] {
        ordered && ka == kb
    } else if op == seq!['!', '='] {
        !(ordered && ka == kb)
    } else if op == seq!['>'] {
        ordered && ka > kb
    } else if op == seq!['>', '='] {
        ordered && ka >= kb
    } else if op == seq!['<'] {
        ordered && ka < kb
    } else {
        ordered && ka <= kb
    }
}

fn order_key(b: u64) -> (r: i128)
    ensures
        r == f64_order_key(b),
{
    let m = (b % 0x8000_0000_0000_0000u64) as i128;
    if b >= 0x8000_0000_0000_0000u64 {
        -m
    } else {
        m
    }
}

fn is_nan_bits(b: u64) -> (r: bool)
    ensures
        r == f64_is_nan(b),
{
    (b / 0x10_0000_0000_0000u64) % 2048 == 2047 && b % 0x10_0000_0000_0000u64 != 0
}

/// Compares two doubles with one of `==`, `!=`, `>`, `>=`, `<`, `<=`
/// (anything else compares with `<=`).
pub fn compare_bits(a: u64, b: u64, op: &Vec<char>) -> (r: bool)
    ensures
        r == f64_compare(a, b, op@),
{
    let ordered = !is_nan_bits(a) && !is_nan_bits(b);
    let ka = order_key(a);
    let kb = order_key(b);
    let n = op.len();
    if n == 2 && op[0] == '=' && op[1] == '=' {
        assert(op@ == seq!['=', '=']);
        ordered && ka == kb
    } else if n == 2 && op[0] == '!' && op[1] == '=' {
        assert(op@ != seq!['=', '=']);
        assert(op@ == seq!['!', '=']);
        !(ordered && ka == kb)
    } else if n == 1 && op[0] == '>' {
        assert(op@ == seq!['>']);
        ordered && ka > kb
    } else if n == 2 && op[0] == '>' && op[1] == '=' {
        assert(op@ == seq!['>', '=']);
        ordered && ka >= kb
    } else if n == 1 && op[0] == '<' {
        assert(op@ == seq!['<']);
        ordered && ka < kb
    } else {
        assert(op@ != seq!['=', '=']) by {
            if op@ == seq!['=', '='] {
                assert(op@[0] == '=' && op@[1] == '=');
            }
        }
        assert(op@ != seq!['!', '=']) by {
            if op@ == seq!['!', '='] {
                assert(op@[0] == '!' && op@[1] == '=');
            }
        }
        assert(op@ != seq!['>']) by {
            if op@ == seq!['>'] {
                assert(op@[0] == '>');
            }
        }
        assert(op@ != seq!['>', '=']) by {
            if op@ == seq!['>', '='] {
                assert(op@[0] == '>' && op@[1] == '=');
            }
        }
        assert(op@ != seq!['<']) by {
            if op@ == seq!['<'] {
                assert(op@[0] == '<');
            }
        }
        ordered && ka <= kb
    }
}

/// Integers of magnitude below `2^53` are exact in binary64: converting one
/// to `f64` and back with `as i64` gives it back.
pub proof fn lemma_small_int_exact(v: int)
    requires
        -0x20_0000_0000_0000 < v < 0x20_0000_0000_0000,
    ensures
        f64_to_i64(f64_of_int(v)) == v,
{
    lemma_two_pow_values();
    if v != 0 {
        let a: nat = (if v < 0 {
            -v
        } else {
            v
        }) as nat;
        let k = bit_length(a);
        lemma_bit_length(a);
        lemma_bit_length_at_most(a, 53);
        let p = two_pow((53 - k) as nat);
        lemma_two_pow_adds((53 - k) as nat, 11);
        assert(((53 - k) + 11) as nat == (64 - k) as nat);
        let m = significand64(a);
        assert(m == (a * p) * 2048) by {
            assert(m == a * (p * 2048));
            assert(a * (p * 2048) == (a * p) * 2048) by (nonlinear_arith);
        }
        let q = a * p;
        assert(m / 2048 == q && m % 2048 == 0) by (nonlinear_arith)
            requires
                m == q * 2048,
        ;
        assert(round_half_even(m) == q);
        lemma_two_pow_adds((k - 1) as nat, (53 - k) as nat);
        lemma_two_pow_adds(k, (53 - k) as nat);
        assert(((k - 1) + (53 - k)) as nat == 52);
        lemma_two_pow_pos((53 - k) as nat);
        assert(two_pow((k - 1) as nat) * p <= q && q < two_pow(k) * p) by (nonlinear_arith)
            requires
                two_pow((k - 1) as nat) <= a,
                a < two_pow(k),
                q == a * p,
                p >= 1,
        ;
        lemma_two_pow_pos((53 - k) as nat);
        assert(0x10_0000_0000_0000 <= q < 0x20_0000_0000_0000);
        let biased: nat = k + 1022;
        let f: nat = (q - 0x10_0000_0000_0000) as nat;
        let s: nat = if v < 0 {
            0x8000_0000_0000_0000
        } else {
            0
        };
        let bits = f64_of_int(v);
        assert(bits as int == s + biased * 0x10_0000_0000_0000 + f);
        assert(f64_exponent(bits) == biased && f64_fraction(bits) == f) by (nonlinear_arith)
            requires
                bits as int == s + biased * 0x10_0000_0000_0000 + f,
                s == 0 || s == 0x8000_0000_0000_0000,
                biased < 2048,
                f < 0x10_0000_0000_0000,
        ;
        assert(f64_negative(bits) == (v < 0));
        assert(f64_significand(bits) == q);
        if k == 53 {
            assert(two_pow(0) == 1);
            assert(p == 1);
            assert(q == a) by (nonlinear_arith)
                requires
                    q == a * p,
                    p == 1,
            ;
            assert(two_pow(0) == 1);
            assert(f64_trunc_magnitude(bits) == q * two_pow(0));
        } else {
            assert(f64_trunc_magnitude(bits) == q / p);
            assert(q / p == a) by (nonlinear_arith)
                requires
                    q == a * p,
                    p >= 1,
            ;
        }
        assert(f64_trunc_magnitude(bits) == a);
    }
}

} // verus!
