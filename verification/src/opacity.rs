//! How a bone's opacity is stored.
//!
//! In memory an opacity is a binary64 number, 1 for a bone that hides what is
//! under it. In a file it is a flag for "exactly 1" and, where the flag is
//! clear, one byte: the opacity times 255, rounded. Reading gives the byte
//! divided by 255. So an opacity comes back as the nearest of 256 steps, not
//! as it was.
//!
//! Both directions are computed here on the bits, in whole numbers, and mean
//! what the same steps mean in binary64 arithmetic: the product with 255 is
//! rounded to 53 significant bits, ties to even, before it is rounded to a
//! whole number, ties away from zero; the quotient by 255 is rounded to 53
//! significant bits, ties to even.

use crate::ieee::{is_nan64, ONE64, SIGN64};
use vstd::prelude::*;

verus! {

/// Two to the power 52: the weight of the hidden bit of a binary64 number
/// among its fraction bits.
pub const HIDDEN_BIT: u64 = 0x10_0000_0000_0000;

/// Two to the power 60.
pub const TWO_TO_60: u64 = 0x1000_0000_0000_0000;

/// `n / d`, rounded to the nearest whole number. Halfway between two, it is
/// the even one.
pub open spec fn nearest_ties_even(n: nat, d: nat) -> nat
    recommends
        d > 0,
{
    let q = n / d;
    let r = n % d;
    if 2 * r < d || (2 * r == d && q % 2 == 0) {
        q
    } else {
        q + 1
    }
}

/// `n / d`, rounded to the nearest whole number. Halfway between two, it is
/// the larger one.
pub open spec fn nearest_ties_up(n: nat, d: nat) -> nat
    recommends
        d > 0,
{
    (2 * n + d) / (2 * d)
}

/// Two to the power `1075 - exponent`, for the exponents from 1014 to 1022:
/// what a binary64 number from two to the power -9 up to 1 has to be
/// multiplied by to be a whole number of 53 bits.
pub open spec fn weight(exponent: u64) -> nat {
    if exponent >= 1022 {
        0x20_0000_0000_0000
    } else if exponent == 1021 {
        0x40_0000_0000_0000
    } else if exponent == 1020 {
        0x80_0000_0000_0000
    } else if exponent == 1019 {
        0x100_0000_0000_0000
    } else if exponent == 1018 {
        0x200_0000_0000_0000
    } else if exponent == 1017 {
        0x400_0000_0000_0000
    } else if exponent == 1016 {
        0x800_0000_0000_0000
    } else if exponent == 1015 {
        0x1000_0000_0000_0000
    } else {
        0x2000_0000_0000_0000
    }
}

/// The byte that stands for the opacity with the bits `a`: the number times
/// 255, rounded, and held to the range of a byte. A NaN gives 0.
///
/// Below two to the power -9 the product is under one half, and from 1 on it
/// is 255 or more. Between them the number is a `m` of 53 bits divided by
/// its weight; `255 * m` has 60 or 61 bits, and `cut` is what it has to be
/// divided by to keep 53.
pub open spec fn alpha_of(a: u64) -> u8 {
    let exponent = a / HIDDEN_BIT;
    let fraction = a % HIDDEN_BIT;
    if a >= SIGN64 || is_nan64(a) {
        0
    } else if exponent >= 1023 {
        255
    } else if exponent <= 1013 {
        0
    } else {
        let product = (255 * (HIDDEN_BIT + fraction)) as nat;
        let cut: nat = if product < TWO_TO_60 {
            128
        } else {
            256
        };
        let m = nearest_ties_even(product, cut);
        let unit = weight(exponent) / cut;
        let q = nearest_ties_up(m, unit);
        if q > 255 {
            255
        } else {
            q as u8
        }
    }
}

/// How often a byte that is not 0 is doubled until it is 255 or more.
pub open spec fn doublings(b: u8) -> nat {
    if b >= 128 {
        1
    } else if b >= 64 {
        2
    } else if b >= 32 {
        3
    } else if b >= 16 {
        4
    } else if b >= 8 {
        5
    } else if b >= 4 {
        6
    } else if b >= 2 {
        7
    } else {
        8
    }
}

/// A byte that is not 0, doubled until it is 255 or more.
pub open spec fn doubled(b: u8) -> nat {
    if b >= 128 {
        (2 * b) as nat
    } else if b >= 64 {
        (4 * b) as nat
    } else if b >= 32 {
        (8 * b) as nat
    } else if b >= 16 {
        (16 * b) as nat
    } else if b >= 8 {
        (32 * b) as nat
    } else if b >= 4 {
        (64 * b) as nat
    } else if b >= 2 {
        (128 * b) as nat
    } else {
        (256 * b) as nat
    }
}

/// The bits of the opacity that the byte `b` stands for: `b / 255`, rounded
/// to a binary64 number.
///
/// Doubled `k` times `b` lies between 255 and 510, so the quotient is a
/// 53-bit `m` times two to the power `-k - 52`.
pub open spec fn opacity_of(b: u8) -> u64 {
    if b == 0 {
        0
    } else if b == 255 {
        ONE64
    } else {
        let m = nearest_ties_even((doubled(b) * HIDDEN_BIT) as nat, 255);
        ((1023 - doublings(b)) * HIDDEN_BIT + (m - HIDDEN_BIT)) as u64
    }
}

/// The opacity that is read back after the opacity with the bits `a` was
/// written: the step that its byte stands for.
pub open spec fn stored_opacity(a: u64) -> u64 {
    opacity_of(alpha_of(a))
}

/// The byte that is written for an opacity.
pub fn opacity_to_alpha(a: u64) -> (r: u8)
    ensures
        r == alpha_of(a),
{
    if a >= SIGN64 || a > 0x7ff0_0000_0000_0000 {
        return 0;
    }
    let exponent: u64 = a / HIDDEN_BIT;
    let fraction: u64 = a % HIDDEN_BIT;
    if exponent >= 1023 {
        return 255;
    }
    if exponent <= 1013 {
        return 0;
    }
    let product: u64 = 255 * (HIDDEN_BIT + fraction);
    let cut: u64 = if product < TWO_TO_60 {
        128
    } else {
        256
    };
    let q0: u64 = product / cut;
    let r0: u64 = product % cut;
    let m: u64 = if 2 * r0 < cut || (2 * r0 == cut && q0 % 2 == 0) {
        q0
    } else {
        q0 + 1
    };
    let mut power: u64 = 2 * HIDDEN_BIT;
    let mut at: u64 = 1022;
    while at > exponent
        invariant
            1014 <= exponent <= at <= 1022,
            power == weight(at),
        decreases at,
    {
        power = power * 2;
        at = at - 1;
    }
    let unit: u64 = power / cut;
    let q: u64 = (2 * m + unit) / (2 * unit);
    if q > 255 {
        255
    } else {
        q as u8
    }
}

/// The opacity that a byte stands for.
pub fn alpha_to_opacity(b: u8) -> (r: u64)
    ensures
        r == opacity_of(b),
{
    if b == 0 {
        return 0;
    }
    if b == 255 {
        return ONE64;
    }
    let (k, scale): (u64, u64) = if b >= 128 {
        (1, 2)
    } else if b >= 64 {
        (2, 4)
    } else if b >= 32 {
        (3, 8)
    } else if b >= 16 {
        (4, 16)
    } else if b >= 8 {
        (5, 32)
    } else if b >= 4 {
        (6, 64)
    } else if b >= 2 {
        (7, 128)
    } else {
        (8, 256)
    };
    let n: u64 = b as u64 * scale;
    let numerator: u64 = n * HIDDEN_BIT;
    let q0: u64 = numerator / 255;
    let r0: u64 = numerator % 255;
    let m: u64 = if 2 * r0 < 255 || (2 * r0 == 255 && q0 % 2 == 0) {
        q0
    } else {
        q0 + 1
    };
    (1023 - k) * HIDDEN_BIT + (m - HIDDEN_BIT)
}

/// The two zeros are stored as the same byte, so they are read back as the
/// same opacity.
pub proof fn zeros_are_stored_alike()
    ensures
        stored_opacity(0) == stored_opacity(SIGN64),
{
}

/// The opacity 1, for which no byte is written, is the step of the byte
/// that it would be written as.
pub proof fn one_is_stored_as_one()
    ensures
        stored_opacity(ONE64) == ONE64,
{
}

/// A quotient whose numerator, brought to the scale `w`, lies within 255 of
/// `b * w` is `b` when it is rounded.
proof fn rounds_to_the_byte(b: int, w: int, cut: int, m: int)
    requires
        0 <= b,
        0 <= m,
        cut == 128 || cut == 256,
        w % cut == 0,
        w > 510,
        -255 <= cut * m - b * w <= 255,
    ensures
        nearest_ties_up(m as nat, (w / cut) as nat) == b,
{
    let unit = w / cut;
    let x = 2 * m + unit;
    let r = x - b * (2 * unit);
    assert(unit * cut == w);
    assert(cut * r == 2 * (cut * m - b * w) + w) by (nonlinear_arith)
        requires
            unit * cut == w,
            x == 2 * m + unit,
            r == x - b * (2 * unit),
    ;
    assert(0 <= r < 2 * unit) by (nonlinear_arith)
        requires
            cut * r == 2 * (cut * m - b * w) + w,
            -255 <= cut * m - b * w <= 255,
            w > 510,
            unit * cut == w,
            cut > 0,
    ;
    vstd::arithmetic::div_mod::lemma_fundamental_div_mod_converse(x, 2 * unit, b, r);
}

/// The step of a byte that is doubled to reach the scale `w` is written as
/// that byte.
proof fn a_step_is_stored_as_itself_at(b: u8, w: nat)
    requires
        0 < b < 255,
        w == weight((1023 - doublings(b)) as u64),
        b * w == doubled(b) * HIDDEN_BIT,
        w % 256 == 0,
    ensures
        alpha_of(opacity_of(b)) == b,
{
    let k = doublings(b);
    let n = doubled(b) * HIDDEN_BIT;
    let m = nearest_ties_even(n as nat, 255);
    assert(HIDDEN_BIT <= m < 2 * HIDDEN_BIT);
    let a = ((1023 - k) * HIDDEN_BIT + (m - HIDDEN_BIT)) as u64;
    assert(a == opacity_of(b));
    assert(a / HIDDEN_BIT == 1023 - k);
    assert(a % HIDDEN_BIT == m - HIDDEN_BIT);
    let product = (255 * m) as nat;
    let cut: nat = if product < TWO_TO_60 {
        128
    } else {
        256
    };
    let rounded = nearest_ties_even(product, cut);
    assert(-255 <= cut * rounded - n <= 255);
    rounds_to_the_byte(b as int, w as int, cut as int, rounded as int);
}

/// A byte that was read is written as itself: the steps of the opacity are
/// the opacities that come back unchanged.
pub proof fn a_step_is_stored_as_itself(b: u8)
    ensures
        alpha_of(opacity_of(b)) == b,
{
    if b == 0 || b == 255 {
    } else if b >= 128 {
        a_step_is_stored_as_itself_at(b, 0x20_0000_0000_0000);
    } else if b >= 64 {
        a_step_is_stored_as_itself_at(b, 0x40_0000_0000_0000);
    } else if b >= 32 {
        a_step_is_stored_as_itself_at(b, 0x80_0000_0000_0000);
    } else if b >= 16 {
        a_step_is_stored_as_itself_at(b, 0x100_0000_0000_0000);
    } else if b >= 8 {
        a_step_is_stored_as_itself_at(b, 0x200_0000_0000_0000);
    } else if b >= 4 {
        a_step_is_stored_as_itself_at(b, 0x400_0000_0000_0000);
    } else if b >= 2 {
        a_step_is_stored_as_itself_at(b, 0x800_0000_0000_0000);
    } else {
        a_step_is_stored_as_itself_at(b, 0x1000_0000_0000_0000);
    }
}

/// An opacity that was read back is read back as itself the next time:
/// storing loses something once only.
pub proof fn storing_twice_is_storing_once(a: u64)
    ensures
        stored_opacity(stored_opacity(a)) == stored_opacity(a),
{
    a_step_is_stored_as_itself(alpha_of(a));
}

} // verus!
