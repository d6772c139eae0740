//! Average fill price and the taker fee of a market buy, in raw units.
//!
//! The fee curve of the exchange is `shares * 0.25 * (p * (1 - p))^2` for a
//! fill at the average price `p`, which is the currency paid over the shares
//! received. With `f` raw units of shares and `u` raw units of currency,
//! `p = u / f`, and the fee in raw units of shares is
//! `(u * (f - u))^2 / (4 * f^3)`: the price enters as the exact quotient, not
//! cut to six decimals. The fee is rounded up to a whole raw unit, so the net
//! share count is rounded down.

use crate::fixed_point::{
    ceil_div, lemma_ceil_div_bounds, lemma_ceil_div_unique, trunc_div, DECIMAL_SCALE,
};
use vstd::arithmetic::div_mod::{lemma_fundamental_div_mod, lemma_fundamental_div_mod_converse};
use vstd::prelude::*;

verus! {

/// `2^32`.
const LIMB: u128 = 0x1_0000_0000;

/// `2^64`: a fee from here on takes the net count out of 64 bits.
const QUOTIENT_LIMIT: u128 = 0x1_0000_0000_0000_0000;

/// `u * (f - u)`: currency paid times what the shares would have cost more at
/// a price of one, the numerator of `p * (1 - p)` over `f^2`.
pub open spec fn fill_spread(filled: int, paid: int) -> int {
    paid * (filled - paid)
}

/// The taker fee on a fill of `filled` raw units of shares for `paid` raw
/// units of currency, in raw units of shares, rounded up; zero where no share
/// was filled.
pub open spec fn taker_fee(filled: int, paid: int) -> int {
    if filled > 0 {
        ceil_div(
            fill_spread(filled, paid) * fill_spread(filled, paid),
            4 * filled * filled * filled,
        )
    } else {
        0
    }
}

/// The shares that remain once the fee is taken.
pub open spec fn net_of_fee(filled: int, paid: int) -> int {
    filled - taker_fee(filled, paid)
}

/// The nearest value that a signed 64-bit integer can hold.
pub open spec fn clamp_i64(x: int) -> int {
    if x < i64::MIN {
        i64::MIN as int
    } else if x > i64::MAX {
        i64::MAX as int
    } else {
        x
    }
}

/// The average price of a fill in raw units: currency over shares, cut toward
/// zero; zero where no share was filled.
pub open spec fn average_price(currency: int, shares: int) -> int {
    if shares > 0 {
        trunc_div(currency * DECIMAL_SCALE, shares)
    } else {
        0
    }
}

/// Cuts a wide value to the range of a signed 64-bit integer.
fn saturate(x: i128) -> (r: i64)
    ensures
        r == clamp_i64(x as int),
{
    if x < i64::MIN as i128 {
        i64::MIN
    } else if x > i64::MAX as i128 {
        i64::MAX
    } else {
        x as i64
    }
}

/// The average price of a fill: `currency_raw / shares_raw` in raw units, cut
/// toward zero and held to 64 bits; zero where no share was filled.
pub fn average_price_raw(currency_raw: i64, shares_raw: i64) -> (price: i64)
    ensures
        price == clamp_i64(average_price(currency_raw as int, shares_raw as int)),
{
    if shares_raw <= 0 {
        return 0;
    }
    let shares = shares_raw as u128;
    if currency_raw >= 0 {
        let scaled = currency_raw as u128 * 1_000_000;
        saturate((scaled / shares) as i128)
    } else {
        let scaled = (-(currency_raw as i128)) as u128 * 1_000_000;
        assert(-(currency_raw as int) * DECIMAL_SCALE == -(currency_raw * DECIMAL_SCALE))
            by (nonlinear_arith);
        saturate(-((scaled / shares) as i128))
    }
}

/// `4 * f^3`: what the squared spread is divided by.
spec fn fee_divisor(f: int) -> int {
    4 * f * f * f
}

/// Splits `w^2 / (4 * f^3)` into parts that fit 128 bits. With `w = x * f + y`
/// the square is `x^2 * f^2 + 2 * x * y * f + y^2`; carrying `y^2` and then
/// `2 * x * y` in base `f` leaves `(x^2 + k1) * f^2 + c1 * f + c0` with both
/// digits below `f`. With `x = e * 2f + z`, `x^2 = 4f * (e^2 * f + e * z) + z^2`,
/// so the quotient is `e^2 * f + e * z` plus the quotient of `z^2 + k1` by
/// `4f`, and the remainder `t * f^2 + c1 * f + c0`.
proof fn lemma_fee_split(
    f: int,
    w: int,
    x: int,
    y: int,
    k0: int,
    c0: int,
    k1: int,
    c1: int,
    e: int,
    z: int,
    top: int,
    t: int,
)
    requires
        f > 0,
        w == x * f + y,
        y * y == k0 * f + c0,
        2 * (x * y) + k0 == k1 * f + c1,
        x == e * (2 * f) + z,
        z * z + k1 == top * (4 * f) + t,
        0 <= t < 4 * f,
        0 <= c1 < f,
        0 <= c0 < f,
    ensures
        (w * w) / fee_divisor(f) == e * e * f + e * z + top,
        ((w * w) % fee_divisor(f) == 0) == (t == 0 && c1 == 0 && c0 == 0),
{
    let d = fee_divisor(f);
    let q = e * e * f + e * z + top;
    let r = t * (f * f) + c1 * f + c0;
    assert(w * w == (x * x) * (f * f) + (2 * (x * y)) * f + y * y) by (nonlinear_arith)
        requires
            w == x * f + y,
    ;
    assert(w * w == (x * x + k1) * (f * f) + c1 * f + c0) by (nonlinear_arith)
        requires
            w * w == (x * x) * (f * f) + (2 * (x * y)) * f + y * y,
            y * y == k0 * f + c0,
            2 * (x * y) + k0 == k1 * f + c1,
    ;
    assert(x * x == (4 * f) * (e * e * f + e * z) + z * z) by (nonlinear_arith)
        requires
            x == e * (2 * f) + z,
    ;
    let head = e * e * f + e * z;
    assert(x * x + k1 == (4 * f) * q + t) by (nonlinear_arith)
        requires
            x * x == (4 * f) * head + z * z,
            z * z + k1 == top * (4 * f) + t,
            q == head + top,
    ;
    assert(((4 * f) * q + t) * (f * f) == q * d + t * (f * f)) by (nonlinear_arith)
        requires
            d == 4 * f * f * f,
    ;
    assert(w * w == q * d + r);
    assert(0 <= t * (f * f) <= (4 * f - 1) * (f * f)) by (nonlinear_arith)
        requires
            0 <= t <= 4 * f - 1,
            f > 0,
    ;
    assert(0 <= c1 * f <= (f - 1) * f) by (nonlinear_arith)
        requires
            0 <= c1 <= f - 1,
            f > 0,
    ;
    assert((4 * f - 1) * (f * f) + (f - 1) * f + (f - 1) == d - 1) by (nonlinear_arith)
        requires
            d == 4 * f * f * f,
    ;
    assert(d > 0) by (nonlinear_arith)
        requires
            d == 4 * f * f * f,
            f > 0,
    ;
    lemma_fundamental_div_mod_converse(w * w, d, q, r);
    if r == 0 {
        assert(t == 0) by (nonlinear_arith)
            requires
                t * (f * f) <= 0,
                t >= 0,
                f > 0,
        ;
        assert(c1 == 0) by (nonlinear_arith)
            requires
                c1 * f <= 0,
                c1 >= 0,
                f > 0,
        ;
    }
    if t == 0 && c1 == 0 && c0 == 0 {
        assert(r == 0) by (nonlinear_arith)
            requires
                r == t * (f * f) + c1 * f + c0,
                t == 0,
                c1 == 0,
                c0 == 0,
        ;
    }
}

/// A spread of `2^32 * 2f * f` or more makes a fee of `2^64` or more.
proof fn lemma_fee_large(f: int, w: int, x: int, y: int, e: int, z: int)
    requires
        f >= 1,
        w == x * f + y,
        x == e * (2 * f) + z,
        y >= 0,
        z >= 0,
        e >= LIMB,
    ensures
        (w * w) / fee_divisor(f) >= QUOTIENT_LIMIT,
{
    let d = fee_divisor(f);
    let k = LIMB as int;
    let base = 2 * (f * f);
    assert(k * k == QUOTIENT_LIMIT);
    assert(w >= k * base) by (nonlinear_arith)
        requires
            w == x * f + y,
            x == e * (2 * f) + z,
            y >= 0,
            z >= 0,
            e >= k,
            f >= 1,
            base == 2 * (f * f),
    ;
    assert(w * w >= (k * base) * (k * base)) by (nonlinear_arith)
        requires
            w >= k * base,
            k * base >= 0,
    ;
    assert((k * base) * (k * base) == (k * k * f) * d) by (nonlinear_arith)
        requires
            base == 2 * (f * f),
            d == 4 * f * f * f,
    ;
    assert((k * k * f) * d >= (k * k) * d && d > 0) by (nonlinear_arith)
        requires
            f >= 1,
            d == 4 * f * f * f,
            k * k > 0,
    ;
    assert(((k * k) * d) / d == k * k) by {
        lemma_fundamental_div_mod_converse((k * k) * d, d, k * k, 0);
    }
    vstd::arithmetic::div_mod::lemma_div_is_ordered((k * k) * d, w * w, d);
}

/// The quotient of `w^2` by `4 * f^3` and whether the division is exact;
/// `None` where the quotient is `2^64` or more.
fn fee_quotient(f: u128, w: u128) -> (r: Option<(u128, bool)>)
    requires
        1 <= f < 0x8000_0000_0000_0000,
        w <= 0x7fff_ffff_ffff_ffff_8000_0000_0000_0000,
    ensures
        match r {
            Some((q, exact)) => {
                &&& q == (w * w) / fee_divisor(f as int)
                &&& exact == ((w * w) % fee_divisor(f as int) == 0)
                &&& q < QUOTIENT_LIMIT
            },
            None => (w * w) / fee_divisor(f as int) >= QUOTIENT_LIMIT,
        },
{
    let x = w / f;
    let y = w % f;
    let e = x / (2 * f);
    let z = x % (2 * f);
    proof {
        lemma_fundamental_div_mod(w as int, f as int);
        lemma_fundamental_div_mod(x as int, 2 * f);
        assert(x * f == f * x && e * (2 * f) == (2 * f) * e) by (nonlinear_arith);
    }
    if e >= LIMB {
        proof {
            lemma_fee_large(f as int, w as int, x as int, y as int, e as int, z as int);
        }
        return None;
    }
    // y^2 in base f
    assert(y * y < 0x4000_0000_0000_0000_0000_0000_0000_0000) by (nonlinear_arith)
        requires
            y < 0x8000_0000_0000_0000,
    ;
    let yy = y * y;
    let k0 = yy / f;
    let c0 = yy % f;
    // 2xy, with the carry of y^2, in base f
    assert(x * y <= w) by (nonlinear_arith)
        requires
            w == f * x + y,
            y < f,
            y >= 0,
            x >= 0,
    ;
    proof {
        lemma_fundamental_div_mod(yy as int, f as int);
        assert(k0 <= y) by (nonlinear_arith)
            requires
                f * k0 + c0 == y * y,
                c0 >= 0,
                y < f,
                y >= 0,
                k0 >= 0,
        ;
    }
    let m = 2 * (x * y) + k0;
    let k1 = m / f;
    let c1 = m % f;
    proof {
        lemma_fundamental_div_mod(m as int, f as int);
        assert(k0 * f == f * k0 && k1 * f == f * k1) by (nonlinear_arith);
        assert(x < 0x2_0000_0000_0000_0000_0000_0000) by (nonlinear_arith)
            requires
                x == (2 * f) * e + z,
                e < LIMB,
                z < 2 * f,
                f < 0x8000_0000_0000_0000,
        ;
        assert(k1 <= 2 * x) by (nonlinear_arith)
            requires
                f * k1 + c1 == 2 * (x * y) + k0,
                f * k0 + c0 == y * y,
                y < f,
                c1 >= 0,
                c0 >= 0,
                y >= 0,
                x >= 0,
                k0 >= 0,
                f >= 1,
        ;
    }
    // z^2 and the carry, over 4f
    assert(z * z < 0xffff_ffff_ffff_ffff_0000_0000_0000_0000) by (nonlinear_arith)
        requires
            z < 0xffff_ffff_ffff_fffe,
    ;
    let zz = z * z;
    let h = 4 * f;
    let qz = zz / h;
    let rz = zz % h;
    let qk = k1 / h;
    let rk = k1 % h;
    let both = rz + rk;
    let carry: u128 = if both >= h {
        1
    } else {
        0
    };
    let t = both - carry * h;
    proof {
        lemma_fundamental_div_mod(zz as int, h as int);
        lemma_fundamental_div_mod(k1 as int, h as int);
        assert(qz < f) by (nonlinear_arith)
            requires
                h * qz + rz == z * z,
                rz >= 0,
                z < 2 * f,
                z >= 0,
                h == 4 * f,
                f >= 1,
        ;
        assert(qk <= k1) by (nonlinear_arith)
            requires
                h * qk + rk == k1,
                rk >= 0,
                h >= 1,
                qk >= 0,
        ;
    }
    assert(e * e < QUOTIENT_LIMIT && e * z < 0x1_0000_0000_0000_0000_0000_0000) by (nonlinear_arith)
        requires
            e < LIMB,
            z < 0x1_0000_0000_0000_0000,
    ;
    assert(e * e * f < 0x8000_0000_0000_0000_0000_0000_0000_0000) by (nonlinear_arith)
        requires
            e * e < QUOTIENT_LIMIT,
            f < 0x8000_0000_0000_0000,
    ;
    let top = qz + qk + carry;
    let q = e * e * f + e * z + top;
    proof {
        assert(z * z + k1 == top * (4 * f) + t) by (nonlinear_arith)
            requires
                h * qz + rz == z * z,
                h * qk + rk == k1,
                t == rz + rk - carry * h,
                top == qz + qk + carry,
                h == 4 * f,
        ;
        lemma_fee_split(
            f as int,
            w as int,
            x as int,
            y as int,
            k0 as int,
            c0 as int,
            k1 as int,
            c1 as int,
            e as int,
            z as int,
            top as int,
            t as int,
        );
    }
    if q >= QUOTIENT_LIMIT {
        None
    } else {
        Some((q, t == 0 && c1 == 0 && c0 == 0))
    }
}

/// The shares that a market buy leaves after the taker fee, in raw units: the
/// shares received less the fee at the average price of the fill, held to 64
/// bits. A fill without shares has no price and no fee.
pub fn net_shares_of_fill(filled_raw: i64, paid_raw: i64) -> (net: i64)
    ensures
        net == clamp_i64(net_of_fee(filled_raw as int, paid_raw as int)),
        filled_raw > 0 ==> net == clamp_i64(
            filled_raw - ceil_div(
                (paid_raw * (filled_raw - paid_raw)) * (paid_raw * (filled_raw - paid_raw)),
                4 * filled_raw * filled_raw * filled_raw,
            ),
        ),
{
    if filled_raw <= 0 {
        return filled_raw;
    }
    let paid = paid_raw as i128;
    let rest = filled_raw as i128 - paid;
    assert(-0x7fff_ffff_ffff_ffff_8000_0000_0000_0000 <= paid * rest
        <= 0x7fff_ffff_ffff_ffff_8000_0000_0000_0000) by (nonlinear_arith)
        requires
            -0x8000_0000_0000_0000 <= paid <= 0x7fff_ffff_ffff_ffff,
            -0xffff_ffff_ffff_ffff <= rest <= 0xffff_ffff_ffff_ffff,
    ;
    let spread = paid * rest;
    let w: u128 = if spread >= 0 {
        spread as u128
    } else {
        (-spread) as u128
    };
    proof {
        assert(fill_spread(filled_raw as int, paid_raw as int) * fill_spread(
            filled_raw as int,
            paid_raw as int,
        ) == w * w) by (nonlinear_arith)
            requires
                fill_spread(filled_raw as int, paid_raw as int) == spread,
                w == spread || w == -spread,
        ;
    }
    match fee_quotient(filled_raw as u128, w) {
        Some((q, exact)) => {
            let fee = if exact {
                q as i128
            } else {
                q as i128 + 1
            };
            saturate(filled_raw as i128 - fee)
        },
        None => i64::MIN,
    }
}

/// On a fill that paid no more than one unit of currency per share, and not
/// less than nothing, the fee is never negative and never more than a
/// sixty-fourth of the fill, rounded up: the net count stays between
/// sixty-three sixty-fourths of the fill, less one raw unit, and the fill.
/// Shares that cost nothing, or one unit each, carry no fee.
pub proof fn lemma_fee_bounds(filled: int, paid: int)
    requires
        filled > 0,
        0 <= paid <= filled,
    ensures
        0 <= taker_fee(filled, paid),
        64 * taker_fee(filled, paid) <= filled + 63,
        0 <= net_of_fee(filled, paid) <= filled,
        (paid == 0 || paid == filled) ==> net_of_fee(filled, paid) == filled,
{
    let d = fee_divisor(filled);
    let spread = fill_spread(filled, paid);
    assert(0 <= spread && 4 * spread <= filled * filled) by (nonlinear_arith)
        requires
            spread == paid * (filled - paid),
            0 <= paid <= filled,
    ;
    let x = spread * spread;
    assert(0 <= x && 16 * x <= (filled * filled) * (filled * filled)) by (nonlinear_arith)
        requires
            x == spread * spread,
            0 <= spread,
            4 * spread <= filled * filled,
    ;
    assert(d > 0 && filled * d == 4 * ((filled * filled) * (filled * filled))) by (nonlinear_arith)
        requires
            d == 4 * filled * filled * filled,
            filled > 0,
    ;
    lemma_ceil_div_bounds(x, d);
    let fee = taker_fee(filled, paid);
    assert(64 * fee <= filled + 63) by (nonlinear_arith)
        requires
            (fee - 1) * d < x,
            64 * x <= filled * d,
            d > 0,
    ;
    if paid == 0 || paid == filled {
        assert(x == 0) by (nonlinear_arith)
            requires
                x == spread * spread,
                spread == paid * (filled - paid),
                paid == 0 || paid == filled,
        ;
        lemma_fundamental_div_mod_converse(0, d, 0, 0);
    }
}

/// Where the average price is a whole number of raw units, the fee is the
/// one of the fee curve at that price: `filled * (p * (S - p))^2 / (4 * S^4)`
/// rounded up, with `S` raw units to the whole.
pub proof fn lemma_fee_at_whole_price(filled: int, paid: int, price: int)
    requires
        filled > 0,
        paid * DECIMAL_SCALE == price * filled,
    ensures
        taker_fee(filled, paid) == ceil_div(
            filled * ((price * (DECIMAL_SCALE - price)) * (price * (DECIMAL_SCALE - price))),
            4_000_000_000_000_000_000_000_000,
        ),
{
    let s = DECIMAL_SCALE as int;
    let b = fee_divisor(filled);
    let d: int = 4_000_000_000_000_000_000_000_000;
    let spread = fill_spread(filled, paid);
    let curve = price * (s - price);
    let a = spread * spread;
    let c = filled * (curve * curve);
    assert(s * s == 1_000_000_000_000);
    assert((s * s) * (s * s) == 1_000_000_000_000_000_000_000_000) by (nonlinear_arith)
        requires
            s * s == 1_000_000_000_000,
    ;
    assert(d == 4 * ((s * s) * (s * s)));
    // u * (f - u) * S^2 == f^2 * p * (S - p)
    assert(spread * (s * s) == (filled * filled) * curve) by (nonlinear_arith)
        requires
            spread == paid * (filled - paid),
            curve == price * (s - price),
            paid * s == price * filled,
    ;
    let lhs = spread * (s * s);
    assert(a * ((s * s) * (s * s)) == lhs * lhs) by (nonlinear_arith)
        requires
            a == spread * spread,
            lhs == spread * (s * s),
    ;
    assert(lhs * lhs == ((filled * filled) * (filled * filled)) * (curve * curve))
        by (nonlinear_arith)
        requires
            lhs == (filled * filled) * curve,
    ;
    assert(a * d == c * b) by (nonlinear_arith)
        requires
            a * ((s * s) * (s * s)) == ((filled * filled) * (filled * filled)) * (curve * curve),
            d == 4 * ((s * s) * (s * s)),
            b == 4 * filled * filled * filled,
            c == filled * (curve * curve),
    ;
    assert(b > 0) by (nonlinear_arith)
        requires
            b == 4 * filled * filled * filled,
            filled > 0,
    ;
    lemma_ceil_div_bounds(a, b);
    let fee = ceil_div(a, b);
    assert((fee - 1) * d < c <= fee * d) by (nonlinear_arith)
        requires
            (fee - 1) * b < a <= fee * b,
            a * d == c * b,
            b > 0,
            d > 0,
    ;
    lemma_ceil_div_unique(c, d, fee);
}

} // verus!
