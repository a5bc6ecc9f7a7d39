//! Floating-point numbers by their IEEE 754 bits.

use vstd::prelude::*;

verus! {

/// A double, held as its bit pattern.
#[derive(Clone, Copy, Debug, PartialEq, Eq, Structural)]
pub struct Real {
    pub bits: u64,
}

/// The sign bit.
pub const SIGN: u64 = 0x8000_0000_0000_0000;

/// Infinity; a larger magnitude is no number.
pub const INFINITE: u64 = 0x7ff0_0000_0000_0000;

/// 1.0
pub const ONE: u64 = 0x3ff0_0000_0000_0000;

/// 0.5
pub const HALF: u64 = 0x3fe0_0000_0000_0000;

/// 0.25
pub const QUARTER: u64 = 0x3fd0_0000_0000_0000;

pub open spec fn magnitude(b: u64) -> int {
    if b >= SIGN {
        b - SIGN
    } else {
        b as int
    }
}

pub open spec fn is_nan(b: u64) -> bool {
    magnitude(b) > INFINITE
}

/// Numbers in their order; both zeros rank the same.
pub open spec fn rank(b: u64) -> int {
    if b >= SIGN {
        -magnitude(b)
    } else {
        magnitude(b)
    }
}

/// `a < b` as numbers; false where one is no number.
pub open spec fn less(a: u64, b: u64) -> bool {
    !is_nan(a) && !is_nan(b) && rank(a) < rank(b)
}

/// A value kept between two bounds; what is no number stays as it is.
pub open spec fn clamped(v: u64, lo: u64, hi: u64) -> u64 {
    if less(v, lo) {
        lo
    } else if less(hi, v) {
        hi
    } else {
        v
    }
}

fn nan(b: u64) -> (r: bool)
    ensures
        r == is_nan(b),
{
    (if b >= SIGN {
        b - SIGN
    } else {
        b
    }) > INFINITE
}

fn place(b: u64) -> (r: i64)
    ensures
        r == rank(b),
{
    if b >= SIGN {
        -((b - SIGN) as i64)
    } else {
        b as i64
    }
}

pub fn is_less(a: u64, b: u64) -> (r: bool)
    ensures
        r == less(a, b),
{
    !nan(a) && !nan(b) && place(a) < place(b)
}

pub fn clamp_bits(v: u64, lo: u64, hi: u64) -> (r: u64)
    ensures
        r == clamped(v, lo, hi),
{
    if is_less(v, lo) {
        lo
    } else if is_less(hi, v) {
        hi
    } else {
        v
    }
}

impl Real {
    /// The number between 0 and 1 that is nearest.
    pub fn unit(self) -> (r: Real)
        ensures
            r.bits == clamped(self.bits, 0, ONE),
    {
        Real { bits: clamp_bits(self.bits, 0, ONE) }
    }
}

/// Two to the power `k`.
pub open spec fn two(k: nat) -> nat
    decreases k,
{
    if k == 0 {
        1
    } else {
        2 * two((k - 1) as nat)
    }
}

/// The number of the highest bit that is set.
pub open spec fn top_bit(n: nat) -> nat
    decreases n,
{
    if n < 2 {
        0
    } else {
        top_bit(n / 2) + 1
    }
}

/// `n` divided by two to the power `s`, to the nearest number, and to the even
/// one where it lies between two.
pub open spec fn shifted(n: nat, s: nat) -> nat {
    let q = n / two(s);
    let r = n % two(s);
    if 2 * r > two(s) || (2 * r == two(s) && q % 2 == 1) {
        q + 1
    } else {
        q
    }
}

/// The bits of the double nearest to a whole number.
pub open spec fn whole_bits(n: nat) -> nat {
    if n == 0 {
        0
    } else {
        let k = top_bit(n);
        let m = if k <= 52 {
            n * two((52 - k) as nat)
        } else {
            shifted(n, (k - 52) as nat)
        };
        ((1023 + k) * 0x10_0000_0000_0000 + (m - 0x10_0000_0000_0000)) as nat
    }
}

proof fn two_positive(k: nat)
    ensures
        two(k) >= 1,
    decreases k,
{
    if k > 0 {
        two_positive((k - 1) as nat);
    }
}

proof fn two_sum(a: nat, b: nat)
    ensures
        two(a + b) == two(a) * two(b),
    decreases a,
{
    if a > 0 {
        two_sum((a - 1) as nat, b);
        assert(two(a) * two(b) == 2 * (two((a - 1) as nat) * two(b))) by (nonlinear_arith)
            requires
                two(a) == 2 * two((a - 1) as nat),
        ;
        assert(((a - 1) as nat + b) as nat == (a + b - 1) as nat);
        assert(two(a + b) == 2 * two((a + b - 1) as nat));
    } else {
        assert(two(0) == 1);
        assert(1 * two(b) == two(b));
    }
}

proof fn top_bit_is(n: nat, k: nat)
    requires
        two(k) <= n < two(k + 1),
    ensures
        top_bit(n) == k,
    decreases k,
{
    if k > 0 {
        assert(two(k + 1) == 2 * two(k));
        assert(two(k) == 2 * two((k - 1) as nat));
        two_positive((k - 1) as nat);
        top_bit_is(n / 2, (k - 1) as nat);
    } else {
        assert(two(1) == 2 * two(0));
    }
}

proof fn two_small()
    ensures
        two(52) == 0x10_0000_0000_0000,
        two(53) == 0x20_0000_0000_0000,
        two(64) == 0x1_0000_0000_0000_0000,
{
    reveal_with_fuel(two, 65);
}

fn power(k: usize) -> (p: u64)
    requires
        k <= 63,
    ensures
        p == two(k as nat),
        p >= 1,
{
    let mut p: u64 = 1;
    let mut i: usize = 0;
    while i < k
        invariant
            i <= k <= 63,
            p == two(i as nat),
            p >= 1,
        decreases k - i,
    {
        proof {
            two_small();
            two_sum((i + 1) as nat, (63 - i) as nat);
            two_positive((63 - i) as nat);
            assert(two((i + 1) as nat) == 2 * two(i as nat));
            assert(two((i + 1) as nat) * two((63 - i) as nat) >= two((i + 1) as nat))
                by (nonlinear_arith)
                requires
                    two((63 - i) as nat) >= 1,
            ;
            assert(two((i + 1) as nat) <= two(64));
            two_sum((i + 1) as nat, (62 - i) as nat);
            two_positive((62 - i) as nat);
            assert(two(64) == 2 * two(63));
            assert(two((i + 1) as nat) * two((62 - i) as nat) >= two((i + 1) as nat))
                by (nonlinear_arith)
                requires
                    two((62 - i) as nat) >= 1,
            ;
            assert(two((i + 1) as nat) <= two(63));
        }
        p = p * 2;
        i += 1;
    }
    p
}

pub fn float_of_whole(n: u64) -> (b: u64)
    ensures
        b == whole_bits(n as nat),
        b < SIGN,
{
    if n == 0 {
        return 0;
    }
    let mut k: usize = 0;
    let mut p: u64 = 1;
    while n - p >= p
        invariant
            1 <= p <= n,
            p == two(k as nat),
            k <= 63,
        decreases n - p,
    {
        proof {
            two_small();
            assert(two((k + 1) as nat) == 2 * two(k as nat));
            if k == 63 {
                assert(two(64) == 2 * two(63));
            }
        }
        p = p * 2;
        k += 1;
    }
    proof {
        two_small();
        assert(two((k + 1) as nat) == 2 * two(k as nat));
        top_bit_is(n as nat, k as nat);
    }
    let m: u64 = if k <= 52 {
        let d: u64 = power(52 - k);
        proof {
            two_sum(k as nat, (52 - k) as nat);
            assert(two(k as nat) * d <= n * d < 2 * (two(k as nat) * d)) by (nonlinear_arith)
                requires
                    two(k as nat) <= n < 2 * two(k as nat),
                    d >= 1,
            ;
        }
        n * d
    } else {
        let d: u64 = power(k - 52);
        let q: u64 = n / d;
        let r: u64 = n % d;
        proof {
            two_sum(52, (k - 52) as nat);
            two_positive((k - 52) as nat);
            assert(two(52) <= n / d < 2 * two(52)) by (nonlinear_arith)
                requires
                    two(52) * d <= n < 2 * (two(52) * d),
                    d >= 1,
            ;
        }
        if r > d - r || (r == d - r && q % 2 == 1) {
            q + 1
        } else {
            q
        }
    };
    (1023 + k as u64) * 0x10_0000_0000_0000 + (m - 0x10_0000_0000_0000)
}

/// The bits of the double nearest to a signed whole number.
pub open spec fn signed_bits(n: int) -> nat {
    if n < 0 {
        whole_bits((-n) as nat) + SIGN as nat
    } else {
        whole_bits(n as nat)
    }
}

pub fn float_of_signed(n: i64) -> (b: u64)
    ensures
        b == signed_bits(n as int),
{
    if n < 0 {
        let a: u64 = if n == i64::MIN {
            0x8000_0000_0000_0000
        } else {
            (-n) as u64
        };
        float_of_whole(a) + SIGN
    } else {
        float_of_whole(n as u64)
    }
}

/// Doubles by their bits are in the order of the numbers: positive ones as
/// their bits, negative ones the other way round and below all positive ones.
/// The two zeros are one number, and what is no number has no place.
pub proof fn bits_are_in_order(a: u64, b: u64)
    ensures
        a < b <= 0x7ff0_0000_0000_0000 ==> less(a, b) && !less(b, a),
        0x8000_0000_0000_0000 <= a < b <= 0xfff0_0000_0000_0000 ==> less(b, a) && !less(a, b),
        0x8000_0000_0000_0000 < a <= 0xfff0_0000_0000_0000 && b <= 0x7ff0_0000_0000_0000 ==> less(
            a,
            b,
        ),
        !less(0x8000_0000_0000_0000, 0) && !less(0, 0x8000_0000_0000_0000),
        is_nan(a) <==> 0x7ff0_0000_0000_0000 < a < 0x8000_0000_0000_0000 || a
            > 0xfff0_0000_0000_0000,
        is_nan(a) ==> !less(a, b) && !less(b, a),
{
}

/// A value is kept between its bounds, and one between them stays.
pub proof fn bounds_are_kept(v: u64, lo: u64, hi: u64)
    requires
        lo <= hi <= 0x7ff0_0000_0000_0000,
    ensures
        lo <= v <= hi ==> clamped(v, lo, hi) == v,
        v < lo ==> clamped(v, lo, hi) == lo,
        hi < v <= 0x7ff0_0000_0000_0000 ==> clamped(v, lo, hi) == hi,
        0x8000_0000_0000_0000 < v <= 0xfff0_0000_0000_0000 ==> clamped(v, lo, hi) == lo,
        is_nan(v) ==> clamped(v, lo, hi) == v,
{
}

proof fn two_up_to(k: nat)
    requires
        k <= 52,
    ensures
        two(k) * two((52 - k) as nat) == 0x10_0000_0000_0000,
{
    two_sum(k, (52 - k) as nat);
    two_small();
}

/// Zero and one have their bits; twice a number has the next exponent; and
/// between two powers of two the bits grow evenly, up to the power above.
pub proof fn whole_numbers_have_their_bits(n: nat, k: nat)
    requires
        k < 52,
        two(k) <= n,
        n + 1 < two(k + 1),
    ensures
        whole_bits(0) == 0,
        whole_bits(1) == 0x3ff0_0000_0000_0000,
        whole_bits(2 * n) == whole_bits(n) + 0x10_0000_0000_0000,
        (whole_bits(n + 1) - whole_bits(n)) * two(k) == 0x10_0000_0000_0000,
{
    two_small();
    top_bit_is(n, k);
    top_bit_is(n + 1, k);
    reveal_with_fuel(two, 2);
    assert(two((k + 1) as nat) == 2 * two(k));
    assert(two((k + 2) as nat) == 2 * two((k + 1) as nat));
    top_bit_is(2 * n, k + 1);
    two_up_to(k);
    let t = two((52 - k) as nat);
    let u = two((51 - k) as nat);
    assert(t == 2 * u);
    assert((n + 1) * t == n * t + t) by (nonlinear_arith);
    assert((2 * n) * u == n * (2 * u)) by (nonlinear_arith);
    assert(n * t >= two(k) * t) by (nonlinear_arith)
        requires
            n >= two(k),
    ;
    assert(whole_bits(n + 1) - whole_bits(n) == t);
    assert(t * two(k) == two(k) * t) by (nonlinear_arith);
    top_bit_is(1, 0);
    reveal_with_fuel(two, 2);
}

/// A negative number has the bits of its opposite and the sign.
pub proof fn sign_stands_in_front(n: int)
    ensures
        n < 0 ==> signed_bits(n) == whole_bits((-n) as nat) + 0x8000_0000_0000_0000,
        n >= 0 ==> signed_bits(n) == whole_bits(n as nat),
{
}

/// Shifting rounds to the nearest number, and to the even one of two that are
/// equally near.
pub proof fn shifting_rounds_to_nearest(n: nat, s: nat)
    ensures
        ({
            let d = two(s) as int;
            let off = n - shifted(n, s) * d;
            &&& -d <= 2 * off <= d
            &&& 2 * off == d || 2 * off == -d ==> shifted(n, s) % 2 == 0
        }),
{
    two_positive(s);
    let d = two(s) as int;
    let q = n as int / d;
    let r = n as int % d;
    vstd::arithmetic::div_mod::lemma_fundamental_div_mod(n as int, d);
    assert(0 <= r < d);
    assert((q + 1) * d == q * d + d) by (nonlinear_arith);
    assert(d * q == q * d) by (nonlinear_arith);
}

} // verus!
