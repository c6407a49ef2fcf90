//! Integer arithmetic with explicit rounding and saturation.
use vstd::prelude::*;

verus! {

/// `n / d` rounded to the nearest integer, halves away from zero.
pub open spec fn round_div(n: int, d: int) -> int
    recommends
        d > 0,
{
    if n >= 0 {
        (2 * n + d) / (2 * d)
    } else {
        -((2 * (-n) + d) / (2 * d))
    }
}

/// `x` limited to the range of `i64`.
pub open spec fn clamp_i64(x: int) -> int {
    if x < i64::MIN {
        i64::MIN as int
    } else if x > i64::MAX {
        i64::MAX as int
    } else {
        x
    }
}

/// `x` limited to the range of `usize`.
pub open spec fn clamp_usize(x: int) -> int {
    if x < 0 {
        0
    } else if x > usize::MAX {
        usize::MAX as int
    } else {
        x
    }
}

/// The rounded quotient is within half a denominator of the exact one.
pub proof fn lemma_round_div_bounds(n: int, d: int)
    requires
        d > 0,
    ensures
        2 * d * round_div(n, d) <= 2 * n + d,
        2 * n - d <= 2 * d * round_div(n, d),
        n >= 0 ==> 2 * n - d < 2 * d * round_div(n, d),
        n < 0 ==> 2 * d * round_div(n, d) < 2 * n + d,
        n >= 0 ==> round_div(n, d) >= 0,
        n <= 0 ==> round_div(n, d) <= 0,
{
    let m = if n >= 0 { 2 * n + d } else { 2 * (-n) + d };
    let q = m / (2 * d);
    vstd::arithmetic::div_mod::lemma_fundamental_div_mod(m, 2 * d);
    vstd::arithmetic::div_mod::lemma_mod_bound(m, 2 * d);
    vstd::arithmetic::div_mod::lemma_div_pos_is_pos(m, 2 * d);
    assert(m == 2 * d * q + m % (2 * d));
    assert(2 * d * (-q) == -(2 * d * q)) by (nonlinear_arith);
    if n == 0 {
        vstd::arithmetic::div_mod::lemma_basic_div(d, 2 * d);
    }
}

/// The rounded quotient of a numerator that is not negative: the whole
/// quotient, and one more where the remainder is at least half the
/// denominator.
proof fn lemma_round_div_by_remainder(a: int, d: int)
    requires
        a >= 0,
        d > 0,
    ensures
        round_div(a, d) == a / d + if 2 * (a % d) >= d { 1int } else { 0int },
{
    let q = a / d;
    let r = a % d;
    vstd::arithmetic::div_mod::lemma_fundamental_div_mod(a, d);
    vstd::arithmetic::div_mod::lemma_mod_bound(a, d);
    if 2 * r >= d {
        assert(2 * a + d == (q + 1) * (2 * d) + (2 * r - d)) by (nonlinear_arith)
            requires
                a == d * q + r,
        ;
        vstd::arithmetic::div_mod::lemma_fundamental_div_mod_converse(
            2 * a + d,
            2 * d,
            q + 1,
            2 * r - d,
        );
    } else {
        assert(2 * a + d == q * (2 * d) + (2 * r + d)) by (nonlinear_arith)
            requires
                a == d * q + r,
        ;
        vstd::arithmetic::div_mod::lemma_fundamental_div_mod_converse(
            2 * a + d,
            2 * d,
            q,
            2 * r + d,
        );
    }
}

fn div_round_unsigned(a: u128, d: u128) -> (q: u128)
    requires
        d > 0,
        a <= i128::MAX,
    ensures
        q == round_div(a as int, d as int),
        q <= i128::MAX,
{
    let q: u128 = a / d;
    let r: u128 = a % d;
    proof {
        lemma_round_div_by_remainder(a as int, d as int);
        vstd::arithmetic::div_mod::lemma_div_is_ordered_by_denominator(a as int, 1, d as int);
        vstd::arithmetic::div_mod::lemma_div_basics(a as int);
    }
    if r >= d - r {
        proof {
            vstd::arithmetic::div_mod::lemma_div_is_ordered_by_denominator(a as int, 2, d as int);
        }
        q + 1
    } else {
        q
    }
}

/// Rounded division of a signed numerator by a positive denominator.
pub fn div_round(n: i128, d: i128) -> (q: i128)
    requires
        d > 0,
        n > i128::MIN,
    ensures
        q == round_div(n as int, d as int),
{
    if n >= 0 {
        div_round_unsigned(n as u128, d as u128) as i128
    } else {
        -(div_round_unsigned((-n) as u128, d as u128) as i128)
    }
}

/// Narrows to `i64`, saturating at the ends of its range.
pub fn saturate_i64(x: i128) -> (r: i64)
    ensures
        r == clamp_i64(x as int),
{
    if x < i64::MIN as i128 {
        i64::MIN
    } else if x > i64::MAX as i128 {
        i64::MAX
    } else {
        x as i64
    }
}

/// Narrows to `usize`, saturating at the ends of its range.
pub fn saturate_usize(x: i128) -> (r: usize)
    ensures
        r == clamp_usize(x as int),
{
    if x < 0 {
        0
    } else if x > usize::MAX as i128 {
        usize::MAX
    } else {
        x as usize
    }
}

/// How many units of position a bin has: positions on the bin axis are
/// counted in millionths of a bin.
pub const BIN_UNIT: i64 = 1_000_000;

/// A whole bin index in millionths of a bin.
pub open spec fn microbins(bin: int) -> int {
    clamp_i64(bin * 1_000_000)
}

/// A whole bin index in millionths of a bin.
pub fn to_microbins(bin: usize) -> (r: i64)
    ensures
        r == microbins(bin as int),
{
    saturate_i64((bin as i128) * 1_000_000)
}

/// Division rounded towards negative infinity, with its remainder, which is
/// never negative.
pub fn div_floor(n: i128, d: i128) -> (qr: (i128, i128))
    requires
        d > 0,
        n > i128::MIN,
    ensures
        qr.0 == (n as int) / (d as int),
        qr.1 == (n as int) % (d as int),
        0 <= qr.1 < d,
{
    if n >= 0 {
        let q: u128 = (n as u128) / (d as u128);
        let r: u128 = (n as u128) % (d as u128);
        proof {
            vstd::arithmetic::div_mod::lemma_fundamental_div_mod(n as int, d as int);
            vstd::arithmetic::div_mod::lemma_div_pos_is_pos(n as int, d as int);
            vstd::arithmetic::div_mod::lemma_div_is_ordered_by_denominator(n as int, 1, d as int);
            vstd::arithmetic::div_mod::lemma_div_basics(n as int);
            vstd::arithmetic::div_mod::lemma_mod_bound(n as int, d as int);
        }
        (q as i128, r as i128)
    } else {
        let a: u128 = (-n) as u128;
        let qa: u128 = a / (d as u128);
        let ra: u128 = a % (d as u128);
        proof {
            vstd::arithmetic::div_mod::lemma_fundamental_div_mod(a as int, d as int);
            vstd::arithmetic::div_mod::lemma_div_pos_is_pos(a as int, d as int);
            vstd::arithmetic::div_mod::lemma_div_is_ordered_by_denominator(a as int, 1, d as int);
            vstd::arithmetic::div_mod::lemma_div_basics(a as int);
            vstd::arithmetic::div_mod::lemma_mod_bound(a as int, d as int);
            assert(a == d * qa + ra);
        }
        if ra == 0 {
            proof {
                assert(n as int == (-(qa as int)) * d + 0) by (nonlinear_arith)
                    requires
                        a == d * qa + ra,
                        ra == 0,
                        a == -n,
                ;
                vstd::arithmetic::div_mod::lemma_fundamental_div_mod_converse(
                    n as int,
                    d as int,
                    -(qa as int),
                    0,
                );
            }
            (-(qa as i128), 0)
        } else {
            proof {
                assert(n as int == (-(qa as int) - 1) * d + (d - ra)) by (nonlinear_arith)
                    requires
                        a == d * qa + ra,
                        a == -n,
                ;
                vstd::arithmetic::div_mod::lemma_fundamental_div_mod_converse(
                    n as int,
                    d as int,
                    -(qa as int) - 1,
                    d - ra,
                );
            }
            (-(qa as i128) - 1, d - (ra as i128))
        }
    }
}

/// Whether the quotient `a_num / a_den` is less than `b_num / b_den`.
/// A quotient with denominator zero is infinite with the sign of its
/// numerator, and undefined where the numerator is zero too; an undefined
/// quotient is neither less nor greater than anything.
pub open spec fn ratio_lt(a_num: int, a_den: int, b_num: int, b_den: int) -> bool {
    if (a_den == 0 && a_num == 0) || (b_den == 0 && b_num == 0) {
        false
    } else if a_den == 0 {
        a_num < 0 && !(b_den == 0 && b_num < 0)
    } else if b_den == 0 {
        b_num > 0
    } else if (a_den > 0) == (b_den > 0) {
        a_num * b_den < b_num * a_den
    } else {
        a_num * b_den > b_num * a_den
    }
}

/// The magnitude of a number.
pub open spec fn magnitude(x: int) -> int {
    if x < 0 {
        -x
    } else {
        x
    }
}

/// The magnitude of a number.
pub fn magnitude_of(x: i128) -> (m: u128)
    ensures
        m == magnitude(x as int),
{
    if x < 0 {
        ((-(x + 1)) as u128) + 1
    } else {
        x as u128
    }
}

/// Whether the quotient `a / b` is less than `c / d`, for numerators that
/// are not negative and denominators above zero. The quotients are
/// compared by their whole parts and then, turned upside down, by what is
/// left over, so that no product is ever formed and no width exceeded.
pub fn fraction_less(a: u128, b: u128, c: u128, d: u128) -> (r: bool)
    requires
        b > 0,
        d > 0,
    ensures
        r == (a * d < c * b),
    decreases b + d,
{
    let qa = a / b;
    let ra = a % b;
    let qc = c / d;
    let rc = c % d;
    proof {
        vstd::arithmetic::div_mod::lemma_fundamental_div_mod(a as int, b as int);
        vstd::arithmetic::div_mod::lemma_fundamental_div_mod(c as int, d as int);
        vstd::arithmetic::div_mod::lemma_mod_bound(a as int, b as int);
        vstd::arithmetic::div_mod::lemma_mod_bound(c as int, d as int);
        let bd = b * d;
        assert(a == b * qa + ra);
        assert(c == d * qc + rc);
        assert(bd > 0) by (nonlinear_arith)
            requires
                b > 0,
                d > 0,
                bd == b * d,
        ;
        assert(a * d == qa * bd + ra * d) by (nonlinear_arith)
            requires
                a == b * qa + ra,
                bd == b * d,
        ;
        assert(c * b == qc * bd + rc * b) by (nonlinear_arith)
            requires
                c == d * qc + rc,
                bd == b * d,
        ;
        assert(0 <= ra * d < bd) by (nonlinear_arith)
            requires
                0 <= ra < b,
                d > 0,
                bd == b * d,
        ;
        assert(0 <= rc * b < bd) by (nonlinear_arith)
            requires
                0 <= rc < d,
                b > 0,
                bd == b * d,
        ;
        if qa < qc {
            assert(qa * bd + bd <= qc * bd) by (nonlinear_arith)
                requires
                    qa < qc,
                    bd > 0,
            ;
        }
        if qa > qc {
            assert(qc * bd + bd <= qa * bd) by (nonlinear_arith)
                requires
                    qc < qa,
                    bd > 0,
            ;
        }
        if rc > 0 {
            assert(0 < rc * b) by (nonlinear_arith)
                requires
                    rc > 0,
                    b > 0,
            ;
        }
        if rc == 0 {
            assert(rc * b == 0) by (nonlinear_arith)
                requires
                    rc == 0,
            ;
        }
        if ra == 0 {
            assert(ra * d == 0) by (nonlinear_arith)
                requires
                    ra == 0,
            ;
        }
        assert(d * ra == ra * d && b * rc == rc * b) by (nonlinear_arith);
    }
    if qa < qc {
        true
    } else if qa > qc {
        false
    } else if rc == 0 {
        false
    } else if ra == 0 {
        true
    } else {
        // the whole parts are equal: the larger quotient leaves more over,
        // which is to say that, upside down, it is the smaller
        fraction_less(d, rc, b, ra)
    }
}

/// Whether the quotient `a_num / a_den` is less than `b_num / b_den`, for
/// numbers of any size.
pub fn ratio_less(a_num: i128, a_den: i128, b_num: i128, b_den: i128) -> (r: bool)
    ensures
        r == ratio_lt(a_num as int, a_den as int, b_num as int, b_den as int),
{
    if (a_den == 0 && a_num == 0) || (b_den == 0 && b_num == 0) {
        false
    } else if a_den == 0 {
        a_num < 0 && !(b_den == 0 && b_num < 0)
    } else if b_den == 0 {
        b_num > 0
    } else {
        let a_below = a_num != 0 && ((a_num < 0) != (a_den < 0));
        let b_below = b_num != 0 && ((b_num < 0) != (b_den < 0));
        let a = magnitude_of(a_num);
        let b = magnitude_of(a_den);
        let c = magnitude_of(b_num);
        let d = magnitude_of(b_den);
        proof {
            lemma_ratio_by_magnitudes(a_num as int, a_den as int, b_num as int, b_den as int);
        }
        if a_below && !b_below {
            true
        } else if b_below && !a_below {
            false
        } else if a_below {
            fraction_less(c, d, a, b)
        } else {
            fraction_less(a, b, c, d)
        }
    }
}

/// The quotient of two numbers with its sign: the quotient of the
/// magnitudes, below zero where exactly one of the two is.
pub open spec fn is_below_zero(num: int, den: int) -> bool {
    num != 0 && ((num < 0) != (den < 0))
}

/// The order of two quotients, from their signs and magnitudes: a quotient
/// below zero is less than one that is not; of two that are not below
/// zero the one of the smaller magnitude is less, and of two below zero
/// the one of the larger.
pub proof fn lemma_ratio_by_magnitudes(a_num: int, a_den: int, b_num: int, b_den: int)
    requires
        a_den != 0,
        b_den != 0,
    ensures
        ratio_lt(a_num, a_den, b_num, b_den) == if is_below_zero(a_num, a_den) && !is_below_zero(
            b_num,
            b_den,
        ) {
            true
        } else if is_below_zero(b_num, b_den) && !is_below_zero(a_num, a_den) {
            false
        } else if is_below_zero(a_num, a_den) {
            magnitude(b_num) * magnitude(a_den) < magnitude(a_num) * magnitude(b_den)
        } else {
            magnitude(a_num) * magnitude(b_den) < magnitude(b_num) * magnitude(a_den)
        },
{
    let a = magnitude(a_num);
    let b = magnitude(a_den);
    let c = magnitude(b_num);
    let d = magnitude(b_den);
    let ad = a * d;
    let cb = c * b;
    // the numerators as they are over denominators above zero
    let an = if a_den > 0 {
        a_num
    } else {
        -a_num
    };
    let bn = if b_den > 0 {
        b_num
    } else {
        -b_num
    };
    let left = an * d;
    let right = bn * b;
    assert(a_num * b_den == if (a_den > 0) == (b_den > 0) {
        left
    } else {
        -left
    }) by (nonlinear_arith)
        requires
            a_den != 0,
            b_den != 0,
            an == if a_den > 0 {
                a_num
            } else {
                -a_num
            },
            d == if b_den < 0 {
                -b_den
            } else {
                b_den
            },
            left == an * d,
    ;
    assert(b_num * a_den == if (a_den > 0) == (b_den > 0) {
        right
    } else {
        -right
    }) by (nonlinear_arith)
        requires
            a_den != 0,
            b_den != 0,
            bn == if b_den > 0 {
                b_num
            } else {
                -b_num
            },
            b == if a_den < 0 {
                -a_den
            } else {
                a_den
            },
            right == bn * b,
    ;
    assert(ratio_lt(a_num, a_den, b_num, b_den) == (left < right));
    assert(left == if an < 0 {
        -ad
    } else {
        ad
    }) by (nonlinear_arith)
        requires
            a == if an < 0 {
                -an
            } else {
                an
            },
            left == an * d,
            ad == a * d,
    ;
    assert(right == if bn < 0 {
        -cb
    } else {
        cb
    }) by (nonlinear_arith)
        requires
            c == if bn < 0 {
                -bn
            } else {
                bn
            },
            right == bn * b,
            cb == c * b,
    ;
    assert(ad >= 0 && (a > 0 ==> ad > 0)) by (nonlinear_arith)
        requires
            a >= 0,
            d > 0,
            ad == a * d,
    ;
    assert(cb >= 0 && (c > 0 ==> cb > 0)) by (nonlinear_arith)
        requires
            c >= 0,
            b > 0,
            cb == c * b,
    ;
    assert(is_below_zero(a_num, a_den) == (an < 0));
    assert(is_below_zero(b_num, b_den) == (bn < 0));
}

/// With denominators above zero, the order of quotients is the order of
/// the reals: "less" passes on from one quotient to the next, also where
/// one of the two steps is "not greater".
pub proof fn lemma_ratio_order(a_num: int, a_den: int, b_num: int, b_den: int, c_num: int, c_den: int)
    requires
        a_den > 0,
        b_den > 0,
        c_den > 0,
    ensures
        ratio_lt(a_num, a_den, b_num, b_den) && ratio_lt(b_num, b_den, c_num, c_den) ==> ratio_lt(
            a_num,
            a_den,
            c_num,
            c_den,
        ),
        ratio_lt(a_num, a_den, b_num, b_den) && !ratio_lt(c_num, c_den, b_num, b_den) ==> ratio_lt(
            a_num,
            a_den,
            c_num,
            c_den,
        ),
        !ratio_lt(b_num, b_den, a_num, a_den) && ratio_lt(b_num, b_den, c_num, c_den) ==> ratio_lt(
            a_num,
            a_den,
            c_num,
            c_den,
        ),
        !ratio_lt(a_num, a_den, b_num, b_den) && !ratio_lt(b_num, b_den, c_num, c_den)
            ==> !ratio_lt(a_num, a_den, c_num, c_den),
{
    // a < c follows from a <= b and b <= c with one of the two strict
    let ab = a_num * b_den;
    let ba = b_num * a_den;
    let bc = b_num * c_den;
    let cb = c_num * b_den;
    let ac = a_num * c_den;
    let ca = c_num * a_den;
    assert(ab * c_den == ac * b_den) by (nonlinear_arith)
        requires
            ab == a_num * b_den,
            ac == a_num * c_den,
    ;
    assert(ba * c_den == bc * a_den) by (nonlinear_arith)
        requires
            ba == b_num * a_den,
            bc == b_num * c_den,
    ;
    assert(cb * a_den == ca * b_den) by (nonlinear_arith)
        requires
            cb == c_num * b_den,
            ca == c_num * a_den,
    ;
    if ab <= ba && bc <= cb {
        assert(ab * c_den <= ba * c_den) by (nonlinear_arith)
            requires
                ab <= ba,
                c_den > 0,
        ;
        assert(bc * a_den <= cb * a_den) by (nonlinear_arith)
            requires
                bc <= cb,
                a_den > 0,
        ;
        assert(ac <= ca) by (nonlinear_arith)
            requires
                ac * b_den <= ca * b_den,
                b_den > 0,
        ;
        if ab < ba {
            assert(ab * c_den < ba * c_den) by (nonlinear_arith)
                requires
                    ab < ba,
                    c_den > 0,
            ;
            assert(ac < ca) by (nonlinear_arith)
                requires
                    ac * b_den < ca * b_den,
                    b_den > 0,
            ;
        }
        if bc < cb {
            assert(bc * a_den < cb * a_den) by (nonlinear_arith)
                requires
                    bc < cb,
                    a_den > 0,
            ;
            assert(ac < ca) by (nonlinear_arith)
                requires
                    ac * b_den < ca * b_den,
                    b_den > 0,
            ;
        }
    }
    if ab >= ba && bc >= cb {
        assert(ab * c_den >= ba * c_den) by (nonlinear_arith)
            requires
                ab >= ba,
                c_den > 0,
        ;
        assert(bc * a_den >= cb * a_den) by (nonlinear_arith)
            requires
                bc >= cb,
                a_den > 0,
        ;
        assert(ac >= ca) by (nonlinear_arith)
            requires
                ac * b_den >= ca * b_den,
                b_den > 0,
        ;
    }
}

} // verus!
