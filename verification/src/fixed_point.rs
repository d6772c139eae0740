//! Fixed-point converter: decimals of any scale on one side, signed 64-bit
//! counts of millionths ("raw units") on the other.

use vstd::arithmetic::div_mod::{lemma_fundamental_div_mod, lemma_fundamental_div_mod_converse};
use vstd::prelude::*;

verus! {

/// Raw units in one whole unit: currency and shares both carry six decimals.
pub const DECIMAL_SCALE: i64 = 1_000_000;

/// Number of decimal places of a raw unit.
pub const RAW_PLACES: u32 = 6;

/// Largest scale that a decimal can carry.
pub const MAX_SCALE: u32 = 28;

/// Largest magnitude of a decimal's mantissa: 96 bits, all set.
pub const MAX_MANTISSA: i128 = 79_228_162_514_264_337_593_543_950_335;

/// Ten to the power `n`.
pub open spec fn pow10(n: nat) -> nat
    decreases n,
{
    if n == 0 {
        1
    } else {
        10 * pow10((n - 1) as nat)
    }
}

/// Division that rounds toward zero, for a positive divisor.
pub open spec fn trunc_div(a: int, b: int) -> int {
    if a >= 0 {
        a / b
    } else {
        -((-a) / b)
    }
}

/// Division that rounds up, for a positive divisor.
pub open spec fn ceil_div(a: int, b: int) -> int {
    if a % b == 0 {
        a / b
    } else {
        a / b + 1
    }
}

/// A decimal number as mathematics sees it: `mantissa / 10^scale`.
pub struct DecimalSpec {
    pub mantissa: int,
    pub scale: nat,
}

impl DecimalSpec {
    /// The number fits the 96-bit mantissa and the scale range of a decimal.
    pub open spec fn wf(self) -> bool {
        &&& self.scale <= MAX_SCALE
        &&& -MAX_MANTISSA <= self.mantissa <= MAX_MANTISSA
    }

    /// The number in raw units, before it is cut to 64 bits: the mantissa
    /// brought to six decimals, excess digits dropped toward zero.
    pub open spec fn raw_units(self) -> int {
        if self.scale <= RAW_PLACES {
            self.mantissa * pow10((RAW_PLACES - self.scale) as nat)
        } else {
            trunc_div(self.mantissa, pow10((self.scale - RAW_PLACES) as nat) as int)
        }
    }

    /// The largest number with at most `places` decimals that is not above
    /// this one. A number that already has no more decimals stays as it is.
    pub open spec fn floor_at(self, places: nat) -> DecimalSpec {
        if self.scale <= places {
            self
        } else {
            DecimalSpec {
                mantissa: self.mantissa / (pow10((self.scale - places) as nat) as int),
                scale: places,
            }
        }
    }

    /// This number is strictly below `other`.
    pub open spec fn lt(self, other: DecimalSpec) -> bool {
        self.mantissa * pow10(other.scale) < other.mantissa * pow10(self.scale)
    }

    /// Both denote the same number.
    pub open spec fn same_number(self, other: DecimalSpec) -> bool {
        self.mantissa * pow10(other.scale) == other.mantissa * pow10(self.scale)
    }
}

/// `mantissa` and `scale` are within what a decimal can hold.
pub open spec fn representable(mantissa: int, scale: nat) -> bool {
    (DecimalSpec { mantissa, scale }).wf()
}

/// A decimal number: a signed mantissa of at most 96 bits and a scale of at
/// most 28 decimal places. Two values are equal under `==` when mantissa and
/// scale agree: `2.5` and `2.50` denote one number and are two values.
#[derive(Clone, Copy, Debug, PartialEq, Eq)]
pub struct DecimalValue {
    mantissa: i128,
    scale: u32,
}

impl View for DecimalValue {
    type V = DecimalSpec;

    closed spec fn view(&self) -> DecimalSpec {
        DecimalSpec { mantissa: self.mantissa as int, scale: self.scale as nat }
    }
}

impl DecimalValue {
    #[verifier::type_invariant]
    spec fn valid(self) -> bool {
        self@.wf()
    }

    /// Builds the decimal `mantissa / 10^scale`; `None` where the parts are
    /// out of range.
    pub fn new(mantissa: i128, scale: u32) -> (d: Option<DecimalValue>)
        ensures
            d is Some == representable(mantissa as int, scale as nat),
            d matches Some(v) ==> v@ == (DecimalSpec {
                mantissa: mantissa as int,
                scale: scale as nat,
            }),
    {
        if scale <= MAX_SCALE && -MAX_MANTISSA <= mantissa && mantissa <= MAX_MANTISSA {
            Some(DecimalValue { mantissa, scale })
        } else {
            None
        }
    }

    /// The number zero.
    pub fn zero() -> (d: DecimalValue)
        ensures
            d@ == (DecimalSpec { mantissa: 0, scale: 0 }),
    {
        DecimalValue { mantissa: 0, scale: 0 }
    }

    /// The mantissa.
    pub fn mantissa(&self) -> (m: i128)
        ensures
            m == self@.mantissa,
            self@.wf(),
    {
        proof {
            use_type_invariant(self);
        }
        self.mantissa
    }

    /// The scale.
    pub fn scale(&self) -> (s: u32)
        ensures
            s == self@.scale,
            self@.wf(),
    {
        proof {
            use_type_invariant(self);
        }
        self.scale
    }

    /// Whether the number is zero.
    pub fn is_zero(&self) -> (z: bool)
        ensures
            z == (self@.mantissa == 0),
    {
        self.mantissa == 0
    }
}

/// The product of two powers of ten is the power of the sum.
pub proof fn lemma_pow10_add(a: nat, b: nat)
    ensures
        pow10(a) * pow10(b) == pow10(a + b),
        pow10(a) > 0,
    decreases a,
{
    if a == 0 {
        assert(pow10(0) == 1);
    } else {
        lemma_pow10_add((a - 1) as nat, b);
        let x = pow10((a - 1) as nat);
        let y = pow10(b);
        assert(pow10(a) == 10 * x);
        assert(pow10(a + b) == 10 * pow10((a + b - 1) as nat));
        assert((10 * x) * y == 10 * (x * y)) by (nonlinear_arith);
    }
}

/// Powers of ten grow with the exponent.
pub proof fn lemma_pow10_monotonic(a: nat, b: nat)
    requires
        a <= b,
    ensures
        0 < pow10(a) <= pow10(b),
    decreases b,
{
    lemma_pow10_add(a, 0);
    if a < b {
        lemma_pow10_monotonic(a, (b - 1) as nat);
    }
}

/// The powers of ten that the conversions meet, written out.
pub proof fn lemma_pow10_values()
    ensures
        pow10(0) == 1,
        pow10(1) == 10,
        pow10(2) == 100,
        pow10(4) == 10_000,
        pow10(6) == 1_000_000,
        pow10(12) == 1_000_000_000_000,
        pow10(24) == 1_000_000_000_000_000_000_000_000,
        pow10(28) == 10_000_000_000_000_000_000_000_000_000,
        pow10(30) == 1_000_000_000_000_000_000_000_000_000_000,
        pow10(38) == 100_000_000_000_000_000_000_000_000_000_000_000_000,
{
    assert(pow10(0) == 1);
    assert(pow10(1) == 10) by {
        reveal_with_fuel(pow10, 2);
    }
    lemma_pow10_add(1, 1);
    assert(pow10(2) == 10 * 10);
    lemma_pow10_add(2, 2);
    assert(pow10(4) == 100 * 100);
    lemma_pow10_add(4, 2);
    assert(pow10(6) == 10_000 * 100);
    lemma_pow10_add(6, 6);
    assert(pow10(12) == 1_000_000 * 1_000_000);
    lemma_pow10_add(12, 12);
    assert(pow10(24) == 1_000_000_000_000 * 1_000_000_000_000);
    lemma_pow10_add(24, 4);
    assert(pow10(28) == 1_000_000_000_000_000_000_000_000 * 10_000);
    lemma_pow10_add(28, 2);
    assert(pow10(30) == 10_000_000_000_000_000_000_000_000_000 * 100);
    lemma_pow10_add(24, 12);
    assert(pow10(36) == 1_000_000_000_000_000_000_000_000 * 1_000_000_000_000);
    lemma_pow10_add(36, 2);
    assert(pow10(38) == 1_000_000_000_000_000_000_000_000_000_000_000_000 * 100);
}

/// Ten to the power `n`, computed.
fn pow10_exec(n: u32) -> (p: u128)
    requires
        n <= 38,
    ensures
        p == pow10(n as nat),
{
    let mut p: u128 = 1;
    let mut i: u32 = 0;
    while i < n
        invariant
            i <= n <= 38,
            p == pow10(i as nat),
        decreases n - i,
    {
        proof {
            lemma_pow10_values();
            lemma_pow10_monotonic((i + 1) as nat, 38);
        }
        p = p * 10;
        i = i + 1;
    }
    p
}

/// Converts a decimal to raw units: a scale of six passes through, a smaller
/// one multiplies the mantissa up, a larger one divides it down and drops the
/// excess digits toward zero. A result beyond 64 bits keeps its low 64 bits.
pub fn decimal_to_raw(d: DecimalValue) -> (raw: i64)
    ensures
        raw == d@.raw_units() as i64,
        i64::MIN <= d@.raw_units() <= i64::MAX ==> raw == d@.raw_units(),
{
    proof {
        use_type_invariant(&d);
        lemma_pow10_values();
    }
    let mantissa = d.mantissa;
    let scale = d.scale;
    if scale == RAW_PLACES {
        proof {
            let one = pow10(0);
            assert(mantissa * one == mantissa) by (nonlinear_arith)
                requires
                    one == 1,
            ;
            assert(d@.raw_units() == mantissa);
        }
        #[verifier::truncate]
        (mantissa as i64)
    } else if scale < RAW_PLACES {
        let factor = pow10_exec(RAW_PLACES - scale);
        proof {
            lemma_pow10_monotonic((RAW_PLACES - scale) as nat, 6);
        }
        let factor = factor as i128;
        assert(-MAX_MANTISSA * 1_000_000 <= mantissa * factor <= MAX_MANTISSA * 1_000_000)
            by (nonlinear_arith)
            requires
                -MAX_MANTISSA <= mantissa <= MAX_MANTISSA,
                0 < factor <= 1_000_000,
        ;
        let scaled = mantissa * factor;
        assert(d@.raw_units() == scaled);
        #[verifier::truncate]
        (scaled as i64)
    } else {
        let factor = pow10_exec(scale - RAW_PLACES);
        proof {
            lemma_pow10_monotonic((scale - RAW_PLACES) as nat, 28);
        }
        if mantissa >= 0 {
            let quotient = (mantissa as u128 / factor) as i128;
            assert(d@.raw_units() == quotient);
            #[verifier::truncate]
            (quotient as i64)
        } else {
            let quotient = ((-mantissa) as u128 / factor) as i128;
            let scaled = -quotient;
            assert(d@.raw_units() == scaled);
            #[verifier::truncate]
            (scaled as i64)
        }
    }
}

/// The decimal that a count of raw units stands for: the count over a million.
pub fn raw_to_decimal(raw: i64) -> (d: DecimalValue)
    ensures
        d@ == (DecimalSpec { mantissa: raw as int, scale: RAW_PLACES as nat }),
        d@.raw_units() == raw,
{
    proof {
        let one = pow10(0);
        assert(one == 1);
        assert(raw * one == raw) by (nonlinear_arith)
            requires
                one == 1,
        ;
    }
    DecimalValue { mantissa: raw as i128, scale: RAW_PLACES }
}

/// A decimal with at most six decimals converts without loss: its raw units
/// are its value times a million, exactly.
pub proof fn lemma_raw_units_exact(v: DecimalSpec)
    requires
        v.scale <= RAW_PLACES,
    ensures
        v.raw_units() * pow10(v.scale) == v.mantissa * DECIMAL_SCALE,
        v.same_number(DecimalSpec { mantissa: v.raw_units(), scale: RAW_PLACES as nat }),
{
    let up = pow10((RAW_PLACES - v.scale) as nat);
    let down = pow10(v.scale);
    lemma_pow10_add((RAW_PLACES - v.scale) as nat, v.scale);
    lemma_pow10_values();
    assert(up * down == 1_000_000);
    assert((v.mantissa * up) * down == v.mantissa * (up * down)) by (nonlinear_arith);
}

/// A decimal with more than six decimals is cut toward zero: its raw units
/// are the whole number of millionths nearest to it that is no further from
/// zero, and carry its sign.
pub proof fn lemma_raw_units_truncate(v: DecimalSpec)
    requires
        v.scale > RAW_PLACES,
    ensures
        ({
            let unit = pow10((v.scale - RAW_PLACES) as nat) as int;
            let raw = v.raw_units();
            &&& v.mantissa >= 0 ==> 0 <= raw && raw * unit <= v.mantissa < (raw + 1) * unit
            &&& v.mantissa <= 0 ==> raw <= 0 && (raw - 1) * unit < v.mantissa <= raw * unit
        }),
{
    let unit = pow10((v.scale - RAW_PLACES) as nat) as int;
    lemma_pow10_monotonic(0, (v.scale - RAW_PLACES) as nat);
    let raw = v.raw_units();
    if v.mantissa >= 0 {
        lemma_fundamental_div_mod(v.mantissa, unit);
        assert(unit * raw + v.mantissa % unit == v.mantissa);
        assert(0 <= v.mantissa % unit < unit);
        assert(raw * unit == unit * raw && (raw + 1) * unit == unit * raw + unit)
            by (nonlinear_arith);
        assert(0 <= raw) by (nonlinear_arith)
            requires
                unit * raw + unit > 0,
                unit > 0,
        ;
    }
    if v.mantissa <= 0 {
        let m = -v.mantissa;
        let q = m / unit;
        lemma_fundamental_div_mod(m, unit);
        assert(unit * q + m % unit == m);
        assert(0 <= m % unit < unit);
        assert(raw == -q);
        assert(raw * unit == -(unit * q) && (raw - 1) * unit == -(unit * q) - unit)
            by (nonlinear_arith)
            requires
                raw == -q,
        ;
        assert(0 <= q) by (nonlinear_arith)
            requires
                unit * q + unit > 0,
                unit > 0,
        ;
    }
}

/// The quotient rounded up is the one whole number `c` with
/// `(c - 1) * b < a <= c * b`.
pub proof fn lemma_ceil_div_unique(a: int, b: int, c: int)
    requires
        b > 0,
        (c - 1) * b < a <= c * b,
    ensures
        c == ceil_div(a, b),
{
    if a == c * b {
        lemma_fundamental_div_mod_converse(a, b, c, 0);
    } else {
        let r = a - (c - 1) * b;
        assert(c * b == (c - 1) * b + b) by (nonlinear_arith);
        lemma_fundamental_div_mod_converse(a, b, c - 1, r);
    }
}

/// The quotient rounded up is the least whole number whose product with the
/// divisor reaches the dividend.
pub proof fn lemma_ceil_div_bounds(a: int, b: int)
    requires
        b > 0,
    ensures
        (ceil_div(a, b) - 1) * b < a <= ceil_div(a, b) * b,
        a >= 0 ==> ceil_div(a, b) >= 0,
{
    lemma_fundamental_div_mod(a, b);
    let q = a / b;
    let r = a % b;
    assert(a == b * q + r);
    assert(0 <= r < b);
    assert(q * b == b * q && (q + 1) * b == b * q + b && (q - 1) * b == b * q - b)
        by (nonlinear_arith);
    if a >= 0 {
        assert(q >= 0) by (nonlinear_arith)
            requires
                b * q + b > 0,
                b > 0,
        ;
    }
}

/// The quotient rounded down is the one whole number `q` with
/// `q * b <= a < (q + 1) * b`.
pub proof fn lemma_floor_div_unique(a: int, b: int, q: int)
    requires
        b > 0,
        q * b <= a < (q + 1) * b,
    ensures
        q == a / b,
{
    assert((q + 1) * b == q * b + b) by (nonlinear_arith);
    lemma_fundamental_div_mod_converse(a, b, q, a - q * b);
}

/// Flooring at `places` decimals moves a number down by less than one unit of
/// the last kept place, and not at all if it has no more decimals.
pub proof fn lemma_floor_at_bounds(v: DecimalSpec, places: nat)
    ensures
        v.scale <= places ==> v.floor_at(places) == v,
        v.scale > places ==> ({
            let unit = pow10((v.scale - places) as nat) as int;
            let kept = v.floor_at(places).mantissa;
            &&& v.floor_at(places).scale == places
            &&& kept * unit <= v.mantissa < (kept + 1) * unit
        }),
{
    if v.scale > places {
        let unit = pow10((v.scale - places) as nat) as int;
        lemma_pow10_monotonic(0, (v.scale - places) as nat);
        let kept = v.mantissa / unit;
        lemma_fundamental_div_mod(v.mantissa, unit);
        assert(kept * unit == unit * kept && (kept + 1) * unit == unit * kept + unit)
            by (nonlinear_arith);
    }
}

/// Multiplies `x` by ten to the power `e` as long as the product stays at or
/// below `cap`; `None` as soon as it would pass it.
fn mul_pow10_capped(x: u128, e: u32, cap: u128) -> (r: Option<u128>)
    ensures
        match r {
            Some(v) => v == x * pow10(e as nat) && v <= cap,
            None => x * pow10(e as nat) > cap,
        },
{
    proof {
        lemma_pow10_monotonic(0, e as nat);
        assert(x * pow10(e as nat) >= x) by (nonlinear_arith)
            requires
                pow10(e as nat) >= 1,
                x >= 0,
        ;
        assert(x * pow10(0) == x) by (nonlinear_arith)
            requires
                pow10(0) == 1,
        ;
    }
    if x > cap {
        return None;
    }
    let mut acc: u128 = x;
    let mut i: u32 = 0;
    while i < e
        invariant
            i <= e,
            acc == x * pow10(i as nat),
            acc <= cap,
        decreases e - i,
    {
        proof {
            lemma_pow10_monotonic((i + 1) as nat, e as nat);
            let next = pow10((i + 1) as nat);
            let last = pow10(e as nat);
            assert(x * next == 10 * (x * pow10(i as nat))) by (nonlinear_arith)
                requires
                    next == 10 * pow10(i as nat),
            ;
            assert(x * next <= x * last) by (nonlinear_arith)
                requires
                    next <= last,
                    x >= 0,
            ;
        }
        if acc > cap / 10 {
            return None;
        }
        acc = acc * 10;
        i = i + 1;
    }
    Some(acc)
}

/// The quotient of `n * 10^e` by `d`, rounded up; `None` where it is above
/// `cap`.
fn ceil_mul_pow10_div(n: u128, e: u32, d: u128, cap: u128) -> (r: Option<u128>)
    requires
        0 < d <= MAX_MANTISSA,
        cap <= SHARES_COUNT_LIMIT,
    ensures
        match r {
            Some(c) => c == ceil_div(n * pow10(e as nat), d as int) && c <= cap,
            None => ceil_div(n * pow10(e as nat), d as int) > cap,
        },
{
    let mut q: u128 = n / d;
    let mut r: u128 = n % d;
    let mut i: u32 = 0;
    proof {
        lemma_fundamental_div_mod(n as int, d as int);
        assert(n * pow10(0) == n) by (nonlinear_arith)
            requires
                pow10(0) == 1,
        ;
        assert(q * d == d * q) by (nonlinear_arith);
        lemma_pow10_monotonic(0, e as nat);
        lemma_floor_at_most_scaled(n as int, e as nat, d as int, 0);
    }
    if q > cap {
        proof {
            assert((q + 1) * d == q * d + d) by (nonlinear_arith);
            lemma_floor_div_unique(n * pow10(0), d as int, q as int);
        }
        return None;
    }
    while i < e
        invariant
            i <= e,
            0 < d <= MAX_MANTISSA,
            cap <= SHARES_COUNT_LIMIT,
            q * d + r == n * pow10(i as nat),
            r < d,
            q <= cap,
        decreases e - i,
    {
        let r10 = r * 10;
        let digit = r10 / d;
        let rest = r10 % d;
        proof {
            lemma_fundamental_div_mod(r10 as int, d as int);
            assert(digit <= 9) by (nonlinear_arith)
                requires
                    d * digit + rest == r10,
                    r10 < 10 * d,
                    rest >= 0,
                    d > 0,
            ;
            let scaled = n * pow10((i + 1) as nat);
            assert(scaled == 10 * (n * pow10(i as nat))) by (nonlinear_arith)
                requires
                    scaled == n * pow10((i + 1) as nat),
                    pow10((i + 1) as nat) == 10 * pow10(i as nat),
            ;
            assert((q * 10 + digit) * d + rest == scaled) by (nonlinear_arith)
                requires
                    q * d + r == n * pow10(i as nat),
                    d * digit + rest == r * 10,
                    scaled == 10 * (n * pow10(i as nat)),
            ;
            assert((q * 10 + digit + 1) * d == (q * 10 + digit) * d + d) by (nonlinear_arith);
            lemma_floor_div_unique(scaled, d as int, q * 10 + digit);
            lemma_floor_at_most_scaled(n as int, e as nat, d as int, (i + 1) as nat);
        }
        let next = q * 10 + digit;
        if next > cap {
            return None;
        }
        q = next;
        r = rest;
        i = i + 1;
    }
    proof {
        let scaled = n * pow10(e as nat);
        if r == 0 {
            assert((q - 1) * d == q * d - d) by (nonlinear_arith);
            lemma_ceil_div_unique(scaled, d as int, q as int);
        } else {
            assert((q + 1) * d == q * d + d) by (nonlinear_arith);
            lemma_ceil_div_unique(scaled, d as int, q + 1);
        }
    }
    if r == 0 {
        Some(q)
    } else if q + 1 > cap {
        None
    } else {
        Some(q + 1)
    }
}

/// A quotient taken at a smaller power of ten is not above the rounded-up
/// quotient taken at a larger one.
proof fn lemma_floor_at_most_scaled(n: int, e: nat, d: int, i: nat)
    requires
        n >= 0,
        d > 0,
        i <= e,
    ensures
        (n * pow10(i)) / d <= ceil_div(n * pow10(e), d),
{
    lemma_pow10_monotonic(i, e);
    let low = n * pow10(i);
    let high = n * pow10(e);
    assert(low <= high) by (nonlinear_arith)
        requires
            low == n * pow10(i),
            high == n * pow10(e),
            pow10(i) <= pow10(e),
            n >= 0,
    ;
    vstd::arithmetic::div_mod::lemma_div_is_ordered(low, high, d);
}

/// Number of decimal places of a share count on the exchange.
pub const SHARE_PLACES: u32 = 2;

/// The share count that a limit buy asks for, in hundredths of a share:
/// `spend / price`, rounded up to two decimals.
pub open spec fn shares_hundredths(spend: DecimalSpec, price: DecimalSpec) -> int {
    ceil_div(
        spend.mantissa * pow10(price.scale + SHARE_PLACES as nat),
        price.mantissa * pow10(spend.scale),
    )
}

/// A hundred times the largest mantissa: a share count in hundredths above
/// it is above every decimal.
pub const SHARES_COUNT_LIMIT: u128 = 7_922_816_251_426_433_759_354_395_033_500;

/// Whether a spend at a price has a share count: the spend is not negative
/// and the price is positive.
pub open spec fn shares_countable(spend: DecimalSpec, price: DecimalSpec) -> bool {
    spend.mantissa >= 0 && price.mantissa > 0
}

/// Whether a share count can be formed for a spend at a price: the spend is
/// not negative, the price is positive, and the count fits a decimal.
pub open spec fn shares_defined(spend: DecimalSpec, price: DecimalSpec) -> bool {
    &&& shares_countable(spend, price)
    &&& shares_hundredths(spend, price) <= MAX_MANTISSA
}

/// The magnitude `am / 10^sa` is strictly below the magnitude `bm / 10^sb`.
fn magnitude_lt(am: u128, sa: u32, bm: u128, sb: u32) -> (r: bool)
    requires
        sa <= MAX_SCALE,
        sb <= MAX_SCALE,
    ensures
        r == (am * pow10(sb as nat) < bm * pow10(sa as nat)),
{
    if sa <= sb {
        let e = sb - sa;
        proof {
            lemma_pow10_add(e as nat, sa as nat);
            lemma_pow10_monotonic(0, sa as nat);
            lemma_scaled_order(
                am as int,
                pow10(e as nat) as int,
                bm as int,
                pow10(sa as nat) as int,
            );
        }
        match mul_pow10_capped(am, e, bm) {
            Some(v) => v < bm,
            None => false,
        }
    } else {
        let e = sa - sb;
        proof {
            lemma_pow10_add(e as nat, sb as nat);
            lemma_pow10_monotonic(0, sb as nat);
            lemma_scaled_order(
                bm as int,
                pow10(e as nat) as int,
                am as int,
                pow10(sb as nat) as int,
            );
        }
        match mul_pow10_capped(bm, e, am) {
            Some(_) => false,
            None => true,
        }
    }
}

/// Scaling both sides of a comparison by a positive factor keeps it.
proof fn lemma_scaled_order(x: int, up: int, y: int, common: int)
    requires
        common > 0,
    ensures
        (x * up < y) == (x * (up * common) < y * common),
        (x * up > y) == (x * (up * common) > y * common),
        (x * up == y) == (x * (up * common) == y * common),
{
    assert(x * (up * common) == (x * up) * common) by (nonlinear_arith);
    let lhs = x * up;
    assert((lhs < y) == (lhs * common < y * common)) by (nonlinear_arith)
        requires
            common > 0,
    ;
    assert((lhs > y) == (lhs * common > y * common)) by (nonlinear_arith)
        requires
            common > 0,
    ;
}

impl DecimalValue {
    /// Whether this number is strictly below `other`, compared exactly.
    pub fn lt(&self, other: &DecimalValue) -> (r: bool)
        ensures
            r == self@.lt(other@),
    {
        proof {
            use_type_invariant(self);
            use_type_invariant(other);
            lemma_pow10_monotonic(0, self.scale as nat);
            lemma_pow10_monotonic(0, other.scale as nat);
        }
        let a = self.mantissa;
        let b = other.mantissa;
        if a >= 0 && b >= 0 {
            magnitude_lt(a as u128, self.scale, b as u128, other.scale)
        } else if a < 0 && b >= 0 {
            proof {
                let pa = pow10(self.scale as nat) as int;
                let pb = pow10(other.scale as nat) as int;
                assert(a * pb < 0 && b * pa >= 0) by (nonlinear_arith)
                    requires
                        a < 0,
                        b >= 0,
                        pa > 0,
                        pb > 0,
                ;
            }
            true
        } else if a >= 0 {
            proof {
                let pa = pow10(self.scale as nat) as int;
                let pb = pow10(other.scale as nat) as int;
                assert(a * pb >= 0 && b * pa < 0) by (nonlinear_arith)
                    requires
                        a >= 0,
                        b < 0,
                        pa > 0,
                        pb > 0,
                ;
            }
            false
        } else {
            proof {
                let pa = pow10(self.scale as nat) as int;
                let pb = pow10(other.scale as nat) as int;
                assert((-b) * pa == -(b * pa) && (-a) * pb == -(a * pb)) by (nonlinear_arith);
            }
            magnitude_lt((-b) as u128, other.scale, (-a) as u128, self.scale)
        }
    }

    /// The largest number with at most `places` decimals that is not above
    /// this one.
    pub fn floor_to_places(&self, places: u32) -> (r: DecimalValue)
        ensures
            r@ == self@.floor_at(places as nat),
    {
        proof {
            use_type_invariant(self);
        }
        if self.scale <= places {
            return *self;
        }
        let unit = pow10_exec(self.scale - places);
        proof {
            lemma_pow10_values();
            lemma_pow10_monotonic((self.scale - places) as nat, 28);
            lemma_pow10_monotonic(1, (self.scale - places) as nat);
        }
        if self.mantissa >= 0 {
            let kept = (self.mantissa as u128 / unit) as i128;
            DecimalValue { mantissa: kept, scale: places }
        } else {
            let magnitude = (-self.mantissa) as u128;
            let q = magnitude / unit;
            let rest = magnitude % unit;
            proof {
                lemma_fundamental_div_mod(magnitude as int, unit as int);
                assert(q + 1 <= magnitude || rest == 0) by (nonlinear_arith)
                    requires
                        unit * q + rest == magnitude,
                        unit >= 10,
                        rest >= 0,
                        q >= 0,
                ;
            }
            let kept = if rest == 0 {
                -(q as i128)
            } else {
                -(q as i128) - 1
            };
            proof {
                let m = self.mantissa as int;
                if rest == 0 {
                    assert(kept * unit == -(unit * q)) by (nonlinear_arith)
                        requires
                            kept == -q,
                    ;
                    assert((kept + 1) * unit == kept * unit + unit) by (nonlinear_arith);
                } else {
                    assert(kept * unit == -(unit * q) - unit) by (nonlinear_arith)
                        requires
                            kept == -q - 1,
                    ;
                    assert((kept + 1) * unit == kept * unit + unit) by (nonlinear_arith);
                }
                lemma_floor_div_unique(m, unit as int, kept as int);
            }
            DecimalValue { mantissa: kept, scale: places }
        }
    }
}

/// The share count of a limit buy in hundredths of a share: `spend / price`
/// rounded up to two decimals, so that the count times the price is never
/// below the spend. `None` where there is no count, or where it is above a
/// hundred times the largest mantissa, and so above every decimal.
fn shares_count(spend: &DecimalValue, price: &DecimalValue) -> (count: Option<u128>)
    ensures
        count is Some == (shares_countable(spend@, price@) && shares_hundredths(spend@, price@)
            <= SHARES_COUNT_LIMIT),
        count matches Some(c) ==> c == shares_hundredths(spend@, price@),
{
    proof {
        use_type_invariant(spend);
        use_type_invariant(price);
    }
    if spend.mantissa < 0 || price.mantissa <= 0 {
        return None;
    }
    let n = spend.mantissa as u128;
    let d = price.mantissa as u128;
    let up = price.scale + SHARE_PLACES;
    let down = spend.scale;
    let ghost num = n * pow10(up as nat);
    let ghost den = d * pow10(down as nat);
    proof {
        lemma_pow10_monotonic(0, down as nat);
        assert(den > 0) by (nonlinear_arith)
            requires
                den == d * pow10(down as nat),
                d > 0,
                pow10(down as nat) > 0,
        ;
    }
    let hundredths: Option<u128> = if up >= down {
        let e = up - down;
        let found = ceil_mul_pow10_div(n, e, d, SHARES_COUNT_LIMIT);
        proof {
            // num == (n * 10^e) * 10^down and den == d * 10^down
            let common = pow10(down as nat) as int;
            let scaled = n * pow10(e as nat);
            lemma_pow10_add(e as nat, down as nat);
            assert(num == scaled * common) by (nonlinear_arith)
                requires
                    num == n * pow10(up as nat),
                    pow10(up as nat) == pow10(e as nat) * common,
                    scaled == n * pow10(e as nat),
            ;
            lemma_ceil_div_common_factor(scaled, d as int, common);
        }
        found
    } else {
        let e = down - up;
        proof {
            // num == n * 10^up and den == (d * 10^e) * 10^up
            let common = pow10(up as nat) as int;
            let widened = d * pow10(e as nat);
            lemma_pow10_add(e as nat, up as nat);
            lemma_pow10_monotonic(0, up as nat);
            lemma_pow10_monotonic(0, e as nat);
            assert(den == widened * common) by (nonlinear_arith)
                requires
                    den == d * pow10(down as nat),
                    pow10(down as nat) == pow10(e as nat) * common,
                    widened == d * pow10(e as nat),
            ;
            assert(widened > 0) by (nonlinear_arith)
                requires
                    widened == d * pow10(e as nat),
                    d > 0,
                    pow10(e as nat) > 0,
            ;
            lemma_ceil_div_common_factor(n as int, widened, common);
        }
        match mul_pow10_capped(d, e, n) {
            Some(widened) => {
                proof {
                    lemma_fundamental_div_mod(n as int, widened as int);
                }
                if n % widened == 0 {
                    Some(n / widened)
                } else {
                    proof {
                        assert(n / widened < n) by (nonlinear_arith)
                            requires
                                widened * (n / widened) + (n % widened) == n,
                                n % widened > 0,
                                widened >= 1,
                                n / widened >= 0,
                        ;
                    }
                    Some(n / widened + 1)
                }
            },
            None => {
                proof {
                    let widened = d * pow10(e as nat);
                    if n > 0 {
                        assert((1 - 1) * widened < n <= 1 * widened) by (nonlinear_arith)
                            requires
                                0 < n < widened,
                        ;
                        lemma_ceil_div_unique(n as int, widened, 1);
                    } else {
                        assert((0 - 1) * widened < n <= 0 * widened) by (nonlinear_arith)
                            requires
                                n == 0,
                                widened > 0,
                        ;
                        lemma_ceil_div_unique(n as int, widened, 0);
                    }
                }
                if n > 0 {
                    Some(1)
                } else {
                    Some(0)
                }
            },
        }
    };
    hundredths
}

/// The share count of a limit buy as a decimal with two places; `None` where
/// there is no count or it is beyond the range of a decimal.
pub fn shares_for_spend(spend: &DecimalValue, price: &DecimalValue) -> (shares: Option<
    DecimalValue,
>)
    ensures
        shares is Some == shares_defined(spend@, price@),
        shares matches Some(s) ==> s@ == (DecimalSpec {
            mantissa: shares_hundredths(spend@, price@),
            scale: SHARE_PLACES as nat,
        }),
{
    match shares_count(spend, price) {
        Some(c) => if c <= MAX_MANTISSA as u128 {
            Some(DecimalValue { mantissa: c as i128, scale: SHARE_PLACES })
        } else {
            None
        },
        None => None,
    }
}

/// Whether a share count, given in hundredths, is strictly below a decimal.
fn count_below(count: u128, min: &DecimalValue) -> (below: bool)
    ensures
        below == (DecimalSpec { mantissa: count as int, scale: SHARE_PLACES as nat }).lt(min@),
{
    proof {
        use_type_invariant(min);
        lemma_pow10_monotonic(0, min.scale as nat);
        lemma_pow10_monotonic(0, SHARE_PLACES as nat);
    }
    if min.mantissa < 0 {
        proof {
            let pm = pow10(min.scale as nat) as int;
            let pc = pow10(SHARE_PLACES as nat) as int;
            let m = min.mantissa as int;
            assert(count * pm >= 0 && m * pc < 0) by (nonlinear_arith)
                requires
                    count >= 0,
                    m < 0,
                    pm > 0,
                    pc > 0,
            ;
        }
        return false;
    }
    magnitude_lt(count, SHARE_PLACES, min.mantissa as u128, min.scale)
}

/// Whether the share count of a limit buy is strictly below the minimum of
/// the market. The count is compared as it is, also where it is beyond the
/// range of a decimal; where there is no count, nothing is below.
pub fn shares_below_minimum(
    spend: &DecimalValue,
    price: &DecimalValue,
    min: &DecimalValue,
) -> (below: bool)
    ensures
        below == (shares_countable(spend@, price@) && (DecimalSpec {
            mantissa: shares_hundredths(spend@, price@),
            scale: SHARE_PLACES as nat,
        }).lt(min@)),
{
    match shares_count(spend, price) {
        Some(count) => count_below(count, min),
        None => {
            proof {
                use_type_invariant(min);
                if shares_countable(spend@, price@) {
                    lemma_count_above_limit_is_below_nothing(
                        shares_hundredths(spend@, price@),
                        min@,
                    );
                }
            }
            false
        },
    }
}

/// A share count above a hundred times the largest mantissa is below no
/// decimal.
pub proof fn lemma_count_above_limit_is_below_nothing(count: int, min: DecimalSpec)
    requires
        count > SHARES_COUNT_LIMIT,
        min.wf(),
    ensures
        !(DecimalSpec { mantissa: count, scale: SHARE_PLACES as nat }).lt(min),
{
    lemma_pow10_values();
    lemma_pow10_monotonic(0, min.scale);
    let pm = pow10(min.scale) as int;
    let m = min.mantissa;
    assert(count * pm >= count) by (nonlinear_arith)
        requires
            count > 0,
            pm >= 1,
    ;
    assert(m * pow10(2) <= SHARES_COUNT_LIMIT);
}

/// The share count of a limit buy covers the spend: the count times the
/// price is never below the spend, and with one hundredth of a share less it
/// would be. Both sides are written over the common denominator
/// `10^(spend.scale + price.scale + 2)`.
pub proof fn lemma_shares_cover_spend(spend: DecimalSpec, price: DecimalSpec)
    requires
        price.mantissa > 0,
    ensures
        ({
            let count = shares_hundredths(spend, price);
            let cost_of_one = price.mantissa * pow10(spend.scale);
            let to_cover = spend.mantissa * pow10(price.scale + SHARE_PLACES as nat);
            &&& (count - 1) * cost_of_one < to_cover <= count * cost_of_one
            &&& spend.mantissa >= 0 ==> count >= 0
        }),
{
    let cost_of_one = price.mantissa * pow10(spend.scale);
    let to_cover = spend.mantissa * pow10(price.scale + SHARE_PLACES as nat);
    lemma_pow10_monotonic(0, spend.scale);
    lemma_pow10_monotonic(0, price.scale + SHARE_PLACES as nat);
    assert(cost_of_one > 0) by (nonlinear_arith)
        requires
            cost_of_one == price.mantissa * pow10(spend.scale),
            price.mantissa > 0,
            pow10(spend.scale) > 0,
    ;
    if spend.mantissa >= 0 {
        assert(to_cover >= 0) by (nonlinear_arith)
            requires
                to_cover == spend.mantissa * pow10(price.scale + SHARE_PLACES as nat),
                spend.mantissa >= 0,
                pow10(price.scale + SHARE_PLACES as nat) > 0,
        ;
    }
    lemma_ceil_div_bounds(to_cover, cost_of_one);
}

/// A factor common to dividend and divisor does not change the quotient
/// rounded up.
pub proof fn lemma_ceil_div_common_factor(a: int, b: int, k: int)
    requires
        b > 0,
        k > 0,
    ensures
        b * k > 0,
        ceil_div(a * k, b * k) == ceil_div(a, b),
{
    lemma_ceil_div_bounds(a, b);
    let c = ceil_div(a, b);
    assert(b * k > 0) by (nonlinear_arith)
        requires
            b > 0,
            k > 0,
    ;
    assert((c - 1) * (b * k) < a * k <= c * (b * k)) by (nonlinear_arith)
        requires
            (c - 1) * b < a <= c * b,
            k > 0,
    ;
    lemma_ceil_div_unique(a * k, b * k, c);
}

/// The quotient of two decimals as the decimal arithmetic of the exchange
/// client computes it, to at most 28 decimals; `None` where the divisor is
/// zero or the quotient is beyond what a decimal can hold.
pub uninterp spec fn decimal_quotient(dividend: DecimalSpec, divisor: DecimalSpec) -> Option<
    DecimalSpec,
>;

/// Calls `checked_div` of `rust_decimal::Decimal` on the two numbers, rebuilt
/// from mantissa and scale with `from_i128_with_scale`, and reads the result
/// back with `mantissa` and `scale`. The contract names the quotient and adds
/// that it is a decimal within range and that a zero divisor gives `None`.
#[verifier::external_body]
fn checked_div(dividend: &DecimalValue, divisor: &DecimalValue) -> (quotient: Option<DecimalValue>)
    requires
        dividend@.wf(),
        divisor@.wf(),
    ensures
        quotient matches Some(q) ==> decimal_quotient(dividend@, divisor@) == Some(q@) && q@.wf(),
        quotient is None ==> decimal_quotient(dividend@, divisor@) is None,
        divisor@.mantissa == 0 ==> quotient is None,
{
    let x = rust_decimal::Decimal::from_i128_with_scale(dividend.mantissa, dividend.scale);
    let y = rust_decimal::Decimal::from_i128_with_scale(divisor.mantissa, divisor.scale);
    match x.checked_div(y) {
        Some(q) => Some(DecimalValue { mantissa: q.mantissa(), scale: q.scale() }),
        None => None,
    }
}

impl DecimalValue {
    /// Divides this number by `divisor` in decimal arithmetic; `None` where
    /// the divisor is zero or the quotient cannot be held.
    pub fn checked_div(&self, divisor: &DecimalValue) -> (quotient: Option<DecimalValue>)
        ensures
            quotient is Some == decimal_quotient(self@, divisor@) is Some,
            quotient matches Some(q) ==> decimal_quotient(self@, divisor@) == Some(q@),
            divisor@.mantissa == 0 ==> quotient is None,
    {
        proof {
            use_type_invariant(self);
            use_type_invariant(divisor);
        }
        checked_div(self, divisor)
    }
}

} // verus!
