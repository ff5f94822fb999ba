//! Percentages as the quota service reports them: IEEE 754 binary64 numbers, held by their
//! encoding and worked on with integers alone.
//!
//! The value of a finite encoding is stated exactly, as an integer number of the smallest
//! positive steps of the format, of which `2^1074` make one.
use crate::text::{decimal, decimal_text};
use vstd::arithmetic::div_mod::{lemma_fundamental_div_mod, lemma_fundamental_div_mod_converse};
use vstd::arithmetic::mul::{lemma_mul_inequality, lemma_mul_strict_inequality};
use vstd::arithmetic::power2::{
    lemma2_to64, lemma2_to64_rest, lemma_pow2_adds, lemma_pow2_pos, lemma_pow2_strictly_increases,
    lemma_pow2_unfold, pow2,
};
use vstd::prelude::*;

verus! {

/// A binary64 number, by its encoding.
#[derive(Clone, Copy, PartialEq, Eq, Structural, Debug)]
pub struct Percent {
    pub bits: u64,
}

/// The encoding's sign bit.
pub const SIGN: u64 = 0x8000_0000_0000_0000;

/// The weight of the lowest exponent bit, and of the implicit leading bit of a normal number.
pub const LEAD: u64 = 0x10_0000_0000_0000;

/// The encoding of one hundred.
pub const HUNDRED: u64 = 0x4059_0000_0000_0000;

/// The encoding of eighty.
pub const EIGHTY: u64 = 0x4054_0000_0000_0000;

/// How many of the smallest steps make one.
pub open spec fn one() -> nat {
    pow2(1074)
}

/// The significand that a sign-less encoding stands for.
pub open spec fn significand(magnitude: nat) -> nat {
    if magnitude / LEAD as nat == 0 {
        magnitude % LEAD as nat
    } else {
        (LEAD + magnitude % LEAD as nat) as nat
    }
}

/// The power of two that scales the significand to smallest steps.
pub open spec fn shift(magnitude: nat) -> nat {
    if magnitude / LEAD as nat == 0 {
        0
    } else {
        (magnitude / LEAD as nat - 1) as nat
    }
}

/// The value of a sign-less finite encoding in smallest steps.
pub open spec fn steps(magnitude: nat) -> nat {
    significand(magnitude) * pow2(shift(magnitude))
}

impl Percent {
    /// The encoding without its sign.
    pub open spec fn magnitude(self) -> nat {
        (self.bits % SIGN) as nat
    }

    pub open spec fn negative(self) -> bool {
        self.bits >= SIGN
    }

    pub open spec fn finite(self) -> bool {
        self.magnitude() < 2047 * LEAD
    }

    pub open spec fn nan(self) -> bool {
        self.magnitude() > 2047 * LEAD
    }

    /// The value of a finite number in smallest steps.
    pub open spec fn scaled(self) -> int {
        if self.negative() {
            -(steps(self.magnitude()) as int)
        } else {
            steps(self.magnitude()) as int
        }
    }

    /// Whether the number is at least `whole`: infinity is, an undefined number is not.
    pub open spec fn reaches(self, whole: nat) -> bool {
        if self.finite() {
            self.scaled() >= whole * one()
        } else {
            !self.nan() && !self.negative()
        }
    }

    /// Whether the number is a percentage: defined, and from zero to one hundred.
    pub open spec fn valid(self) -> bool {
        self.finite() && 0 <= self.scaled() <= 100 * one()
    }
}

proof fn lemma_steps_parts(magnitude: nat)
    ensures
        significand(magnitude) < 2 * LEAD,
        magnitude / LEAD as nat > 0 ==> significand(magnitude) >= LEAD,
{
    assert(0 <= magnitude % LEAD as nat && magnitude % (LEAD as nat) < LEAD) by (nonlinear_arith)
        requires
            LEAD > 0,
    ;
}

/// A larger encoding stands for a larger value: the order of encodings is the order of values.
pub proof fn law_encoding_order(a: nat, b: nat)
    requires
        a < b,
    ensures
        steps(a) < steps(b),
{
    let ea = a / LEAD as nat;
    let eb = b / LEAD as nat;
    lemma_steps_parts(a);
    lemma_steps_parts(b);
    assert(ea <= eb) by (nonlinear_arith)
        requires
            ea == a / LEAD as nat,
            eb == b / LEAD as nat,
            a < b,
            LEAD > 0,
    ;
    assert(a == LEAD * ea + a % LEAD as nat && b == LEAD * eb + b % LEAD as nat) by (nonlinear_arith)
        requires
            ea == a / LEAD as nat,
            eb == b / LEAD as nat,
            LEAD > 0,
    ;
    lemma_pow2_pos(shift(a));
    lemma_pow2_pos(shift(b));
    if ea == eb {
        assert(significand(a) < significand(b));
        lemma_mul_strict_inequality(
            significand(a) as int,
            significand(b) as int,
            pow2(shift(a)) as int,
        );
    } else {
        // steps(a) < 2^53 * 2^shift(a) <= 2^52 * 2^shift(b) <= steps(b)
        if ea == 0 {
            lemma2_to64();
            lemma_mul_inequality(LEAD as int, significand(b) as int, pow2(shift(b)) as int);
            assert(LEAD * pow2(shift(b)) >= LEAD) by (nonlinear_arith)
                requires
                    pow2(shift(b)) >= 1,
            ;
            assert(significand(a) * pow2(0) == significand(a)) by (nonlinear_arith)
                requires
                    pow2(0) == 1,
            ;
        } else {
            lemma_pow2_unfold((shift(a) + 1) as nat);
            if shift(a) + 1 < shift(b) {
                lemma_pow2_strictly_increases((shift(a) + 1) as nat, shift(b));
            }
            lemma_mul_strict_inequality(
                significand(a) as int,
                2 * LEAD as int,
                pow2(shift(a)) as int,
            );
            lemma_mul_inequality(LEAD as int, significand(b) as int, pow2(shift(b)) as int);
            assert(2 * LEAD * pow2(shift(a)) <= LEAD * pow2(shift(b))) by (nonlinear_arith)
                requires
                    2 * pow2(shift(a)) <= pow2(shift(b)),
            ;
        }
    }
}

proof fn lemma_landmarks()
    ensures
        steps(HUNDRED as nat) == 100 * one(),
        steps(EIGHTY as nat) == 80 * one(),
{
    assert(HUNDRED as nat / LEAD as nat == 1029 && HUNDRED as nat % LEAD as nat
        == 9 * 0x1000000000000);
    assert(EIGHTY as nat / LEAD as nat == 1029 && EIGHTY as nat % LEAD as nat == 4
        * 0x1000000000000);
    lemma2_to64();
    lemma2_to64_rest();
    assert(pow2(48) == 0x1000000000000);
    lemma_pow2_adds(48, 1028);
    lemma_pow2_adds(2, 1074);
    let p = pow2(1028);
    assert(25 * pow2(48) * p == 25 * (pow2(48) * p)) by (nonlinear_arith);
    assert(20 * pow2(48) * p == 20 * (pow2(48) * p)) by (nonlinear_arith);
    assert(significand(HUNDRED as nat) == 25 * pow2(48));
    assert(significand(EIGHTY as nat) == 20 * pow2(48));
}


impl Percent {
    fn size(self) -> (r: u64)
        ensures
            r == self.magnitude(),
    {
        self.bits % SIGN
    }

    fn is_negative(self) -> (r: bool)
        ensures
            r == self.negative(),
    {
        self.bits >= SIGN
    }

    /// Whether the number is less than `other`.
    pub fn below(self, other: Percent) -> (r: bool)
        requires
            self.finite(),
            other.finite(),
        ensures
            r == (self.scaled() < other.scaled()),
    {
        let a: u64 = self.size();
        let b: u64 = other.size();
        proof {
            lemma_zero();
            if a < b {
                law_encoding_order(a as nat, b as nat);
            } else if b < a {
                law_encoding_order(b as nat, a as nat);
            }
            if 0 < a {
                law_encoding_order(0, a as nat);
            }
            if 0 < b {
                law_encoding_order(0, b as nat);
            }
        }
        if self.is_negative() {
            if other.is_negative() {
                b < a
            } else {
                a > 0 || b > 0
            }
        } else if other.is_negative() {
            false
        } else {
            a < b
        }
    }

    fn reaches_encoded(self, bits: u64, whole: Ghost<nat>) -> (r: bool)
        requires
            0 < bits < 2047 * LEAD,
            steps(bits as nat) == whole@ * one(),
        ensures
            r == self.reaches(whole@),
    {
        let a: u64 = self.size();
        proof {
            lemma_zero();
            law_encoding_order(0, bits as nat);
            if a < bits {
                law_encoding_order(a as nat, bits as nat);
            } else if bits < a {
                law_encoding_order(bits as nat, a as nat);
            }
        }
        !self.is_negative() && a >= bits && a <= 2047 * LEAD
    }

    /// Whether the number is one hundred or more.
    pub fn reaches_hundred(self) -> (r: bool)
        ensures
            r == self.reaches(100),
    {
        proof {
            lemma_landmarks();
        }
        self.reaches_encoded(HUNDRED, Ghost(100))
    }

    /// Whether the number is eighty or more.
    pub fn reaches_eighty(self) -> (r: bool)
        ensures
            r == self.reaches(80),
    {
        proof {
            lemma_landmarks();
        }
        self.reaches_encoded(EIGHTY, Ghost(80))
    }

    /// Whether the number is a percentage: defined, and from zero to one hundred.
    pub fn is_valid(self) -> (r: bool)
        ensures
            r == self.valid(),
    {
        let a: u64 = self.size();
        proof {
            lemma_zero();
            lemma_landmarks();
            if 0 < a {
                law_encoding_order(0, a as nat);
            }
            if a < HUNDRED {
                law_encoding_order(a as nat, HUNDRED as nat);
            } else if HUNDRED < a {
                law_encoding_order(HUNDRED as nat, a as nat);
            }
        }
        if self.is_negative() {
            a == 0
        } else {
            a <= HUNDRED
        }
    }
}

proof fn lemma_zero()
    ensures
        steps(0) == 0,
{
    assert(significand(0) == 0);
}

// ---------------------------------------------------------------- rounding

/// `a / b`, rounded to the nearest whole number, a tie to the even one.
pub open spec fn half_even(a: nat, b: nat) -> nat {
    if 2 * (a % b) > b || (2 * (a % b) == b && (a / b) % 2 == 1) {
        (a / b + 1) as nat
    } else {
        a / b
    }
}

/// The number of binary digits of `d`.
pub open spec fn bit_len(d: nat) -> nat
    decreases d,
{
    if d == 0 {
        0
    } else {
        (bit_len(d / 2) + 1) as nat
    }
}

/// The leading 53 binary digits of `d`, the rest rounded to the nearest, a tie to even.
pub open spec fn leading(d: nat) -> nat {
    if bit_len(d) <= 53 {
        d * pow2((53 - bit_len(d)) as nat)
    } else {
        half_even(d, pow2((bit_len(d) - 53) as nat))
    }
}

/// The encoding of the binary64 number nearest to `d / 2^scale`, a tie to the even significand.
pub open spec fn nearest(d: nat, scale: nat) -> int {
    if d == 0 {
        0
    } else {
        (1022 + bit_len(d) - scale) * LEAD + (leading(d) - LEAD)
    }
}

proof fn lemma_quotient_scales(a: nat, b: nat, c: nat)
    requires
        b > 0,
        c > 0,
    ensures
        (a * c) / (b * c) == a / b,
        (a * c) % (b * c) == (a % b) * c,
        b * c > 0,
{
    let q = a / b;
    let r = a % b;
    lemma_fundamental_div_mod(a as int, b as int);
    assert(a * c == q * (b * c) + r * c && 0 <= r * c < b * c && b * c > 0) by (nonlinear_arith)
        requires
            a == b * q + r,
            0 <= r < b,
            c > 0,
    ;
    lemma_fundamental_div_mod_converse((a * c) as int, (b * c) as int, q as int, (r * c) as int);
}

proof fn lemma_half_even_scales(a: nat, b: nat, c: nat)
    requires
        b > 0,
        c > 0,
    ensures
        half_even(a * c, b * c) == half_even(a, b),
{
    lemma_quotient_scales(a, b, c);
    let r = a % b;
    assert((2 * (r * c) > b * c) == (2 * r > b)) by (nonlinear_arith)
        requires
            c > 0,
    ;
    assert((2 * (r * c) == b * c) == (2 * r == b)) by (nonlinear_arith)
        requires
            c > 0,
    ;
}

proof fn lemma_bit_len(d: nat, n: nat)
    requires
        n >= 1,
        pow2((n - 1) as nat) <= d < pow2(n),
    ensures
        bit_len(d) == n,
    decreases n,
{
    lemma2_to64();
    if n == 1 {
        assert(d == 1);
        assert(bit_len(0) == 0);
        assert(bit_len(1) == 1);
    } else {
        lemma_pow2_unfold(n);
        lemma_pow2_unfold((n - 1) as nat);
        lemma_pow2_pos((n - 1) as nat);
        lemma_bit_len(d / 2, (n - 1) as nat);
    }
}

proof fn lemma_nearest_doubles(d: nat, scale: nat)
    ensures
        nearest(2 * d, scale + 1) == nearest(d, scale),
{
    if d > 0 {
        let n = bit_len(d);
        assert((2 * d) / 2 == d);
        assert(bit_len(2 * d) == n + 1);
        if n + 1 <= 53 {
            lemma_pow2_unfold((53 - n) as nat);
            let u = pow2((52 - n) as nat);
            assert(2 * d * u == d * (2 * u)) by (nonlinear_arith);
        } else if n == 53 {
            lemma2_to64();
            assert(pow2(0) == 1 && pow2(1) == 2);
            assert((2 * d) % 2 == 0);
            assert(d * 1 == d);
        } else {
            lemma_pow2_unfold((n - 52) as nat);
            lemma_pow2_pos((n - 53) as nat);
            let u = pow2((n - 53) as nat);
            lemma_half_even_scales(d, u, 2);
            assert(d * 2 == 2 * d && u * 2 == 2 * u);
        }
    }
}

/// Scaling both the number and the divisor by a power of two changes nothing.
proof fn lemma_nearest_scales(d: nat, scale: nat, k: nat)
    ensures
        nearest(d * pow2(k), scale + k) == nearest(d, scale),
    decreases k,
{
    if k == 0 {
        lemma2_to64();
        assert(d * pow2(0) == d) by (nonlinear_arith)
            requires
                pow2(0) == 1,
        ;
    } else {
        lemma_nearest_scales(d, scale, (k - 1) as nat);
        lemma_pow2_unfold(k);
        let u = pow2((k - 1) as nat);
        lemma_nearest_doubles(d * u, (scale + k - 1) as nat);
        assert(2 * (d * u) == d * (2 * u)) by (nonlinear_arith);
    }
}

fn power(k: u32) -> (r: u128)
    requires
        k < 127,
    ensures
        r == pow2(k as nat),
{
    let mut r: u128 = 1;
    let mut i: u32 = 0;
    proof {
        lemma2_to64();
        lemma2_to64_rest();
        lemma_pow2_adds(63, 63);
        assert(pow2(126) == 0x8000000000000000 * 0x8000000000000000);
    }
    while i < k
        invariant
            i <= k < 127,
            r == pow2(i as nat),
            pow2(126) == 0x8000000000000000 * 0x8000000000000000,
        decreases k - i,
    {
        proof {
            lemma_pow2_unfold((i + 1) as nat);
            if i + 1 < 126 {
                lemma_pow2_strictly_increases((i + 1) as nat, 126);
            }
        }
        r = r * 2;
        i += 1;
    }
    r
}

fn count_bits(d: u128) -> (r: u32)
    ensures
        r == bit_len(d as nat),
        r <= 128,
        d > 0 ==> r > 0 && pow2((r - 1) as nat) <= d < pow2(r as nat),
    decreases d,
{
    proof {
        lemma2_to64();
    }
    if d == 0 {
        0
    } else {
        let half: u128 = d / 2;
        let r: u32 = count_bits(half);
        proof {
            if half > 0 {
                lemma_pow2_unfold((r + 1) as nat);
                lemma_pow2_unfold(r as nat);
            } else {
                assert(bit_len(0) == 0);
                lemma_pow2_unfold(1);
            }
            if r == 128 {
                lemma2_to64_rest();
                lemma_pow2_adds(64, 63);
                assert(pow2(127) == 0x10000000000000000 * 0x8000000000000000);
            }
        }
        r + 1
    }
}

/// The encoding of the binary64 number nearest to `d / 2^scale`.
fn encode(d: u128, scale: u32) -> (r: u64)
    requires
        scale <= 1000,
    ensures
        r == nearest(d as nat, scale as nat),
        r < 2047 * LEAD,
{
    if d == 0 {
        return 0;
    }
    let len: u32 = count_bits(d);
    let lead: u128;
    proof {
        lemma2_to64();
        lemma2_to64_rest();
        assert(pow2(52) == LEAD);
        assert(pow2(53) == 2 * LEAD);
    }
    if len <= 53 {
        let unit: u128 = power(53 - len);
        proof {
            lemma_pow2_adds(len as nat, (53 - len) as nat);
            lemma_pow2_adds((len - 1) as nat, (53 - len) as nat);
            let low = pow2((len - 1) as nat);
            let high = pow2(len as nat);
            assert(low * unit <= d * unit < high * unit) by (nonlinear_arith)
                requires
                    low <= d < high,
                    unit > 0,
            ;
        }
        lead = d * unit;
    } else {
        let unit: u128 = power(len - 53);
        proof {
            lemma_pow2_pos((len - 53) as nat);
            lemma_pow2_adds(53, (len - 53) as nat);
            lemma_pow2_adds(52, (len - 53) as nat);
        }
        let whole: u128 = d / unit;
        let rest: u128 = d % unit;
        proof {
            lemma_fundamental_div_mod(d as int, unit as int);
            assert(LEAD <= whole < 2 * LEAD) by (nonlinear_arith)
                requires
                    LEAD * unit <= d < 2 * LEAD * unit,
                    d == unit * whole + rest,
                    0 <= rest < unit,
            ;
        }
        lead = if rest > unit - rest || (rest == unit - rest && whole % 2 == 1) {
            whole + 1
        } else {
            whole
        };
    }
    ((1022 + len - scale) as u64) * LEAD + (lead as u64 - LEAD)
}

/// The encoding of the binary64 number nearest to a whole number.
pub open spec fn integer_encoding(n: int) -> int {
    if n < 0 {
        SIGN + nearest((-n) as nat, 0)
    } else {
        nearest(n as nat, 0)
    }
}

/// The binary64 number nearest to `n`.
pub fn from_integer(n: i128) -> (r: Percent)
    requires
        -0x8000_0000_0000_0000 <= n <= 0xffff_ffff_ffff_ffff,
    ensures
        r.bits == integer_encoding(n as int),
{
    if n < 0 {
        Percent { bits: SIGN + encode((-n) as u128, 0) }
    } else {
        Percent { bits: encode(n as u128, 0) }
    }
}

// ---------------------------------------------------------------- fixed point

/// The value of a number up to one hundred, in steps of `2^-100`; `None` for one too small for
/// such steps, less than `2^-48`.
fn fixed(size: u64) -> (r: Option<u128>)
    requires
        size <= HUNDRED,
    ensures
        match r {
            Some(x) => x * pow2(974) == steps(size as nat) && x <= 100 * pow2(100),
            None => steps(size as nat) < pow2(1026),
        },
{
    let exponent: u64 = size / LEAD;
    let fraction: u64 = size % LEAD;
    proof {
        lemma2_to64();
        lemma2_to64_rest();
        lemma_steps_parts(size as nat);
        assert(pow2(52) == LEAD && pow2(53) == 2 * LEAD);
    }
    if exponent < 975 {
        proof {
            let k = shift(size as nat);
            let m = significand(size as nat);
            lemma_pow2_pos(k);
            if k < 973 {
                lemma_pow2_strictly_increases(k, 973);
            }
            lemma_pow2_adds(53, 973);
            assert(m * pow2(k) < pow2(53) * pow2(973)) by (nonlinear_arith)
                requires
                    m < pow2(53),
                    0 < pow2(k) <= pow2(973),
            ;
        }
        return None;
    }
    let unit: u128 = power((exponent - 975) as u32);
    let sig: u128 = (LEAD + fraction) as u128;
    proof {
        let e = (exponent - 975) as nat;
        assert(exponent <= 1029);
        lemma_pow2_adds(e, 974);
        assert(significand(size as nat) == sig);
        assert(shift(size as nat) == e + 974);
        assert(sig * unit * pow2(974) == sig * (unit * pow2(974))) by (nonlinear_arith);
        lemma_landmarks();
        if size < HUNDRED {
            law_encoding_order(size as nat, HUNDRED as nat);
        }
        lemma_pow2_adds(100, 974);
        lemma_pow2_pos(974);
        let p = pow2(974);
        let x = sig * unit;
        assert(x <= 100 * pow2(100)) by (nonlinear_arith)
            requires
                x * p <= 100 * (pow2(100) * p),
                p > 0,
        ;
        lemma_pow2_adds(64, 36);
        assert(pow2(100) == 0x10000000000000000 * 0x1000000000);
    }
    Some(sig * unit)
}

/// How many of sixteen cells a bar for this percentage fills: sixteen hundredths of it, rounded
/// to the nearest whole number and held between none and all.
pub open spec fn bar_cells(percent: Percent) -> nat {
    if percent.nan() || percent.negative() {
        0
    } else if percent.reaches(100) {
        16
    } else {
        ((8 * steps(percent.magnitude()) + 25 * one()) / (50 * one())) as nat
    }
}

/// A bar has no more than sixteen cells to fill.
pub proof fn lemma_cells(percent: Percent)
    ensures
        bar_cells(percent) <= 16,
{
    let t = steps(percent.magnitude());
    let d = (50 * one()) as int;
    if !percent.nan() && !percent.negative() && !percent.reaches(100) {
        lemma_pow2_pos(1074);
        assert(8 * t + 25 * one() < 17 * d);
        vstd::arithmetic::div_mod::lemma_div_by_multiple_is_strongly_ordered(
            (8 * t + 25 * one()) as int,
            17 * d,
            17,
            d,
        );
        vstd::arithmetic::div_mod::lemma_div_multiples_vanish(17, d);
    }
}

/// A bar for a larger percentage is filled at least as far. Infinity is larger than every number,
/// and an undefined number is left out.
pub proof fn law_bar_fills(a: Percent, b: Percent)
    requires
        !a.nan() && !b.nan(),
        a.finite() && b.finite() ==> a.scaled() <= b.scaled(),
        !a.finite() && !a.negative() ==> !b.finite() && !b.negative(),
        !b.finite() && b.negative() ==> !a.finite() && a.negative(),
    ensures
        bar_cells(a) <= bar_cells(b),
{
    lemma_cells(a);
    lemma_pow2_pos(1074);
    let d = (50 * one()) as int;
    if !a.negative() && !a.reaches(100) && !b.reaches(100) {
        let x = (8 * steps(a.magnitude()) + 25 * one()) as int;
        if b.negative() {
            assert(steps(a.magnitude()) == 0);
            vstd::arithmetic::div_mod::lemma_basic_div(x, d);
        } else {
            let y = (8 * steps(b.magnitude()) + 25 * one()) as int;
            vstd::arithmetic::div_mod::lemma_div_is_ordered(x, y, d);
        }
    }
}

/// How many of sixteen cells a bar for this percentage fills.
pub fn filled_cells(percent: Percent) -> (r: usize)
    ensures
        r == bar_cells(percent),
        r <= 16,
{
    let size: u64 = percent.size();
    if size > 2047 * LEAD || percent.is_negative() {
        return 0;
    }
    if percent.reaches_hundred() {
        return 16;
    }
    proof {
        lemma_landmarks();
        if HUNDRED < size && percent.finite() {
            law_encoding_order(HUNDRED as nat, size as nat);
        }
        lemma2_to64();
        lemma2_to64_rest();
        lemma_pow2_adds(64, 36);
        lemma_pow2_adds(100, 974);
        lemma_pow2_adds(48, 1026);
        lemma_pow2_pos(974);
        lemma_pow2_pos(1026);
        assert(pow2(100) == 0x10000000000000000 * 0x1000000000);
    }
    let unit: u128 = power(100);
    match fixed(size) {
        Some(x) => {
            proof {
                let p = pow2(974);
                lemma_quotient_scales((8 * x + 25 * unit) as nat, (50 * unit) as nat, p);
                assert((8 * x + 25 * unit) * p == 8 * (x * p) + 25 * (unit * p)) by (nonlinear_arith);
                assert((50 * unit) * p == 50 * (unit * p)) by (nonlinear_arith);
                assert(x < 100 * unit) by (nonlinear_arith)
                    requires
                        x * p < 100 * (unit * p),
                        p > 0,
                ;
            }
            ((8 * x + 25 * unit) / (50 * unit)) as usize
        },
        None => {
            proof {
                let t = steps(size as nat);
                let d = 50 * one();
                assert(8 * t + 25 * one() < d);
                lemma_fundamental_div_mod_converse((8 * t + 25 * one()) as int, d as int, 0, (8 * t + 25 * one()) as int);
            }
            0
        },
    }
}

/// What is left of one hundred, held between zero and one hundred: the binary64 number nearest
/// to the exact difference.
pub open spec fn rest_of_hundred(percent: Percent) -> int {
    if percent.nan() {
        percent.bits as int
    } else if percent.negative() {
        HUNDRED as int
    } else if percent.reaches(100) {
        0
    } else {
        nearest((100 * one() - steps(percent.magnitude())) as nat, 1074)
    }
}

proof fn lemma_next_to_hundred(t: nat)
    requires
        t < pow2(1026),
    ensures
        nearest((100 * one() - t) as nat, 1074) == HUNDRED,
{
    lemma2_to64();
    lemma2_to64_rest();
    let d = (100 * one() - t) as nat;
    let unit = pow2(1028);
    lemma_pow2_adds(46, 1028);
    lemma_pow2_adds(6, 1074);
    lemma_pow2_adds(7, 1074);
    lemma_pow2_adds(48, 1026);
    lemma_pow2_adds(2, 1026);
    lemma_pow2_pos(1026);
    let w = 100 * pow2(46);
    assert(100 * one() == w * unit) by (nonlinear_arith)
        requires
            one() == pow2(46) * unit,
            w == 100 * pow2(46),
    ;
    lemma_bit_len(d, 1081);
    if t == 0 {
        lemma_fundamental_div_mod_converse(d as int, unit as int, w as int, 0);
    } else {
        assert(d == (w - 1) * unit + (unit - t)) by (nonlinear_arith)
            requires
                d == w * unit - t,
        ;
        lemma_fundamental_div_mod_converse(d as int, unit as int, w - 1, unit - t);
    }
    assert(half_even(d, unit) == w);
    assert(pow2(46) == 0x400000000000);
    assert(w == 25 * 0x1000000000000);
}

/// What is left of one hundred, held between zero and one hundred.
pub fn complement(percent: Percent) -> (r: Percent)
    ensures
        r.bits == rest_of_hundred(percent),
{
    let size: u64 = percent.size();
    if size > 2047 * LEAD {
        return percent;
    }
    if percent.is_negative() {
        return Percent { bits: HUNDRED };
    }
    if percent.reaches_hundred() {
        return Percent { bits: 0 };
    }
    proof {
        lemma_landmarks();
        if HUNDRED < size && percent.finite() {
            law_encoding_order(HUNDRED as nat, size as nat);
        }
        lemma2_to64();
        lemma2_to64_rest();
        lemma_pow2_adds(64, 36);
        lemma_pow2_adds(100, 974);
        lemma_pow2_pos(974);
        assert(pow2(100) == 0x10000000000000000 * 0x1000000000);
    }
    match fixed(size) {
        Some(x) => {
            let d: u128 = 100 * power(100) - x;
            proof {
                let p = pow2(974);
                assert(d * p == 100 * (pow2(100) * p) - x * p) by (nonlinear_arith)
                    requires
                        d == 100 * pow2(100) - x,
                ;
                lemma_nearest_scales(d as nat, 100, 974);
            }
            Percent { bits: encode(d, 100) }
        },
        None => {
            proof {
                lemma_next_to_hundred(steps(size as nat));
            }
            Percent { bits: HUNDRED }
        },
    }
}

// ---------------------------------------------------------------- decimal form

/// The number that decimal digits, least significant first, stand for.
pub open spec fn digits_number(d: Seq<u8>) -> nat
    decreases d.len(),
{
    if d.len() == 0 {
        0
    } else {
        (d[0] + 10 * digits_number(d.skip(1))) as nat
    }
}

/// Decimal digits without leading zeros, least significant first.
spec fn canonical(d: Seq<u8>) -> bool {
    &&& d.len() >= 1
    &&& forall|i: int| 0 <= i < d.len() ==> d[i] < 10
    &&& d.len() > 1 ==> d.last() > 0
}

fn digits_of(n: u64) -> (r: Vec<u8>)
    ensures
        canonical(r@),
        digits_number(r@) == n,
        n > 0 ==> r@.last() > 0,
    decreases n,
{
    let low: u8 = (n % 10) as u8;
    if n < 10 {
        let r = vec![low];
        proof {
            assert(r@.skip(1) =~= Seq::<u8>::empty());
            assert(digits_number(r@.skip(1)) == 0);
        }
        r
    } else {
        let mut r = digits_of(n / 10);
        let ghost high = r@;
        r.insert(0, low);
        proof {
            assert(r@.skip(1) =~= high);
            assert(r@.last() == high.last());
        }
        r
    }
}

fn double_from(d: &Vec<u8>, from: usize, carry: u8) -> (r: Vec<u8>)
    requires
        from <= d.len(),
        carry <= 1,
        forall|i: int| 0 <= i < d.len() ==> d@[i] < 10,
        d@.len() > 0 ==> d@.last() > 0,
    ensures
        forall|i: int| 0 <= i < r@.len() ==> r@[i] < 10,
        r@.len() > 0 ==> r@.last() > 0,
        digits_number(r@) == 2 * digits_number(d@.skip(from as int)) + carry,
    decreases d.len() - from,
{
    if from == d.len() {
        if carry == 0 {
            let r: Vec<u8> = Vec::new();
            r
        } else {
            let r = vec![1u8];
            proof {
                assert(r@.skip(1) =~= Seq::<u8>::empty());
                assert(digits_number(r@.skip(1)) == 0);
                assert(digits_number(d@.skip(from as int)) == 0);
            }
            r
        }
    } else {
        let twice: u8 = 2 * d[from] + carry;
        let mut r = double_from(d, from + 1, if twice >= 10 { 1 } else { 0 });
        let ghost high = r@;
        r.insert(0, if twice >= 10 { twice - 10 } else { twice });
        proof {
            assert(r@.skip(1) =~= high);
            assert(d@.skip(from as int).skip(1) =~= d@.skip(from + 1));
            if high.len() > 0 {
                assert(r@.last() == high.last());
            } else {
                assert(digits_number(high) == 0);
                if from + 1 < d@.len() {
                    assert(d@.skip(from + 1).last() == d@.last());
                    lemma_positive(d@.skip(from + 1));
                }
                assert(d@[from as int] == d@.last());
                assert(r@.last() == r@[0]);
            }
        }
        r
    }
}

proof fn lemma_positive(d: Seq<u8>)
    requires
        d.len() > 0,
        d.last() > 0,
    ensures
        digits_number(d) > 0,
    decreases d.len(),
{
    if d.len() == 1 {
        assert(d[0] == d.last());
    } else {
        assert(d.skip(1).last() == d.last());
        lemma_positive(d.skip(1));
    }
}

fn digits_text(d: &Vec<u8>, from: usize) -> (r: String)
    requires
        canonical(d@),
        from < d.len(),
    ensures
        r@ == decimal_text(digits_number(d@.skip(from as int))),
    decreases d.len() - from,
{
    let ghost here = d@.skip(from as int);
    let mut out = if from + 1 == d.len() {
        proof {
            assert(here.skip(1) =~= Seq::<u8>::empty());
        }
        String::new()
    } else {
        proof {
            assert(here.skip(1) =~= d@.skip(from + 1));
            assert(d@.skip(from + 1).last() == d@.last());
            lemma_positive(d@.skip(from + 1));
        }
        digits_text(d, from + 1)
    };
    proof {
        let n = digits_number(here);
        assert(n == d@[from as int] + 10 * digits_number(here.skip(1)));
        assert(n % 10 == d@[from as int] as nat);
        assert(n / 10 == digits_number(here.skip(1)));
    }
    out.push((48u8 + d[from]) as char);
    out
}

/// `n * 2^k` in decimal.
fn decimal_scaled(n: u64, k: u64) -> (r: String)
    requires
        n > 0,
    ensures
        r@ == decimal_text(n as nat * pow2(k as nat)),
{
    let mut d = digits_of(n);
    let mut i: u64 = 0;
    proof {
        lemma2_to64();
        assert(n as nat * pow2(0) == n as nat) by (nonlinear_arith)
            requires
                pow2(0) == 1,
        ;
    }
    while i < k
        invariant
            i <= k,
            n > 0,
            canonical(d@),
            d@.last() > 0,
            digits_number(d@) == n as nat * pow2(i as nat),
        decreases k - i,
    {
        let next = double_from(&d, 0, 0);
        proof {
            assert(d@.skip(0) =~= d@);
            lemma_pow2_unfold((i + 1) as nat);
            let u = pow2(i as nat);
            assert(n as nat * (2 * u) == 2 * (n as nat * u)) by (nonlinear_arith);
            lemma_positive(d@);
            assert(next@.len() > 0);
        }
        d = next;
        i += 1;
    }
    proof {
        assert(d@.skip(0) =~= d@);
    }
    digits_text(&d, 0)
}

/// The number in decimal: without a fraction where it is whole, to one decimal place otherwise.
pub open spec fn shown(percent: Percent) -> Seq<char> {
    if percent.nan() {
        "NaN"@
    } else {
        let sign = if percent.negative() {
            "-"@
        } else {
            ""@
        };
        sign + (if percent.finite() {
            shown_size(percent.magnitude())
        } else {
            "inf"@
        })
    }
}

/// The decimal form of a sign-less finite encoding.
pub open spec fn shown_size(size: nat) -> Seq<char> {
    if steps(size) % one() == 0 {
        decimal_text(steps(size) / one())
    } else {
        let tenths = half_even(10 * steps(size), one());
        decimal_text(tenths / 10) + "."@ + decimal_text(tenths % 10)
    }
}

fn show_size(size: u64) -> (r: String)
    requires
        size < 2047 * LEAD,
    ensures
        r@ == shown_size(size as nat),
{
    let exponent: u64 = size / LEAD;
    let fraction: u64 = size % LEAD;
    let sig: u64 = if exponent == 0 {
        fraction
    } else {
        LEAD + fraction
    };
    let ghost m = sig as nat;
    proof {
        lemma2_to64();
        lemma2_to64_rest();
        lemma_steps_parts(size as nat);
        assert(m == significand(size as nat));
        assert(pow2(53) == 2 * LEAD);
        lemma_pow2_pos(1074);
    }
    if exponent >= 1075 {
        let k: u64 = exponent - 1075;
        proof {
            lemma_pow2_adds(k as nat, 1074);
            assert(shift(size as nat) == k + 1074);
            let u = pow2(k as nat);
            let o = one();
            let v = m * u;
            assert(m * (u * o) == v * o) by (nonlinear_arith)
                requires
                    v == m * u,
            ;
            lemma_fundamental_div_mod_converse(steps(size as nat) as int, o as int, v as int, 0);
        }
        return decimal_scaled(sig, k);
    }
    let down: u64 = if exponent == 0 {
        1074
    } else {
        1075 - exponent
    };
    proof {
        let k = shift(size as nat);
        assert(k + down == 1074);
        lemma_pow2_adds(down as nat, k);
        lemma_pow2_pos(k);
        lemma_pow2_pos(down as nat);
        let u = pow2(down as nat);
        lemma_quotient_scales(m, u, pow2(k));
        lemma_half_even_scales(10 * m, u, pow2(k));
        assert((10 * m) * pow2(k) == 10 * (m * pow2(k))) by (nonlinear_arith);
        assert(((m % u) * pow2(k) == 0) == (m % u == 0)) by (nonlinear_arith)
            requires
                pow2(k) > 0,
                m % u >= 0,
        ;
        assert(steps(size as nat) % one() == (m % u) * pow2(k));
        assert(steps(size as nat) / one() == m / u);
        assert(half_even(10 * steps(size as nat), one()) == half_even(10 * m, u));
    }
    if down <= 64 {
        let unit: u128 = power(down as u32);
        proof {
            if down < 64 {
                lemma_pow2_strictly_increases(down as nat, 64);
            }
        }
        if (sig as u128) % unit == 0 {
            let whole: u128 = (sig as u128) / unit;
            proof {
                lemma_fundamental_div_mod(sig as int, unit as int);
                assert(whole <= sig) by (nonlinear_arith)
                    requires
                        sig == unit * whole + 0,
                        unit >= 1,
                ;
            }
            return decimal(whole as u64);
        }
        let ten: u128 = 10 * (sig as u128);
        let whole: u128 = ten / unit;
        let rest: u128 = ten % unit;
        proof {
            lemma_fundamental_div_mod(ten as int, unit as int);
            assert(whole <= ten) by (nonlinear_arith)
                requires
                    ten == unit * whole + rest,
                    0 <= rest,
                    unit >= 1,
            ;
        }
        let tenths: u64 = (if rest > unit - rest || (rest == unit - rest && whole % 2 == 1) {
            whole + 1
        } else {
            whole
        }) as u64;
        proof {
            assert(tenths as nat == half_even((10 * m) as nat, pow2(down as nat)));
        }
        let mut out = decimal(tenths / 10);
        out.append(".");
        out.append(&decimal(tenths % 10));
        out
    } else {
        proof {
            if 65 < down {
                lemma_pow2_strictly_increases(65, down as nat);
            }
            lemma_pow2_unfold(65);
            let u = pow2(down as nat);
            lemma_fundamental_div_mod_converse(m as int, u as int, 0, m as int);
            lemma_fundamental_div_mod_converse((10 * m) as int, u as int, 0, (10 * m) as int);
        }
        if sig == 0 {
            return decimal(0);
        }
        let mut out = decimal(0);
        out.append(".");
        out.append(&decimal(0));
        out
    }
}

/// The number in decimal: without a fraction where it is whole, to one decimal place otherwise.
pub fn show(percent: Percent) -> (r: String)
    ensures
        r@ == shown(percent),
{
    let size: u64 = percent.size();
    if size > 2047 * LEAD {
        return "NaN".to_owned();
    }
    let sign = if percent.is_negative() {
        "-"
    } else {
        ""
    };
    let mut out = sign.to_owned();
    if size < 2047 * LEAD {
        out.append(&show_size(size));
    } else {
        out.append("inf");
    }
    out
}

}
