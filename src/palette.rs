//! The rotating palette: smooth escape counts to colours by linear
//! interpolation between a few key colours.
use vstd::prelude::*;
use vstd::arithmetic::div_mod::{lemma_fundamental_div_mod, lemma_fundamental_div_mod_converse};
use crate::fixed::ONE;
use crate::escape::Escape;

verus! {

/// An 8-bit-per-channel colour.
#[derive(Clone, Copy, Debug, PartialEq, Eq, Structural)]
pub struct Rgb {
    pub r: u8,
    pub g: u8,
    pub b: u8,
}

/// Number of key colours.
pub const PALETTE_LEN: u64 = 5;

/// Number of rotation steps in a full turn of the palette.
pub const PHASE_STEPS: u32 = 1024;

/// One spatial colour unit per this many escape counts.
pub const COLOR_SCALE_DIVISOR: u128 = 20;

/// Palette advance of one rotation step, in fixed point: `PALETTE_LEN / PHASE_STEPS`.
pub const PHASE_UNIT: u128 = 351843720888320;

pub open spec fn black() -> Rgb {
    Rgb { r: 0, g: 0, b: 0 }
}

/// The key colours, in order.
pub open spec fn key_color(i: int) -> Rgb {
    if i == 0 {
        Rgb { r: 184, g: 141, b: 242 }
    } else if i == 1 {
        Rgb { r: 242, g: 133, b: 226 }
    } else if i == 2 {
        Rgb { r: 236, g: 218, b: 242 }
    } else if i == 3 {
        Rgb { r: 68, g: 50, b: 227 }
    } else {
        Rgb { r: 240, g: 49, b: 97 }
    }
}

/// Linear interpolation from `a` to `b` at fraction `f / ONE`, rounded down.
pub open spec fn lerp(a: int, b: int, f: int) -> int {
    (a * ONE + (b - a) * f) / (ONE as int)
}

/// The colour at palette position `t` (fixed point, `PALETTE_LEN` units a turn).
pub open spec fn palette_color(t: int) -> Rgb {
    let i = t / (ONE as int);
    let f = t % (ONE as int);
    let a = key_color(i % 5);
    let b = key_color((i + 1) % 5);
    Rgb {
        r: lerp(a.r as int, b.r as int, f) as u8,
        g: lerp(a.g as int, b.g as int, f) as u8,
        b: lerp(a.b as int, b.b as int, f) as u8,
    }
}

/// Palette position of smooth count `s` at rotation step `phase`.
pub open spec fn palette_position(s: int, phase: int) -> int {
    s / (COLOR_SCALE_DIVISOR as int) + phase * PHASE_UNIT
}

/// The colour of an escape result at rotation step `phase`: black for a
/// bounded orbit.
pub open spec fn color_of(e: Option<int>, phase: int) -> Rgb {
    match e {
        None => black(),
        Some(s) => palette_color(palette_position(s, phase)),
    }
}

proof fn lemma_lerp_between(a: int, b: int, f: int)
    requires
        0 <= a <= 255,
        0 <= b <= 255,
        0 <= f < ONE,
    ensures
        a <= b ==> a <= lerp(a, b, f) <= b,
        b < a ==> b <= lerp(a, b, f) <= a,
{
    let o = ONE as int;
    let n = a * o + (b - a) * f;
    lemma_fundamental_div_mod(n, o);
    let q = n / o;
    let r = n % o;
    if a <= b {
        assert(a * o <= n <= b * o) by (nonlinear_arith)
            requires
                a <= b,
                0 <= f < o,
                n == a * o + (b - a) * f,
        ;
    } else {
        assert(b * o <= n <= a * o) by (nonlinear_arith)
            requires
                b < a,
                0 <= f < o,
                n == a * o + (b - a) * f,
        ;
    }
    assert(a <= b ==> a <= q <= b) by (nonlinear_arith)
        requires
            a <= b ==> a * o <= n <= b * o,
            n == o * q + r,
            0 <= r < o,
    ;
    assert(b < a ==> b <= q <= a) by (nonlinear_arith)
        requires
            b < a ==> b * o <= n <= a * o,
            n == o * q + r,
            0 <= r < o,
    ;
}

fn key(i: u64) -> (c: Rgb)
    requires
        i < PALETTE_LEN,
    ensures
        c == key_color(i as int),
{
    if i == 0 {
        Rgb { r: 184, g: 141, b: 242 }
    } else if i == 1 {
        Rgb { r: 242, g: 133, b: 226 }
    } else if i == 2 {
        Rgb { r: 236, g: 218, b: 242 }
    } else if i == 3 {
        Rgb { r: 68, g: 50, b: 227 }
    } else {
        Rgb { r: 240, g: 49, b: 97 }
    }
}

/// Largest fraction that `interpolate` accepts: 2 to the 32nd, in fixed point.
pub const MAX_FRACTION: u128 = 0x10000000000000000000000;

/// A channel value clamped to `0..=255`.
pub open spec fn clamp_channel(v: int) -> int {
    if v < 0 {
        0
    } else if v > 255 {
        255
    } else {
        v
    }
}

/// One channel of the interpolation from `a` to `b` at fraction `f / ONE`,
/// rounded down and clamped to `0..=255`; fractions beyond 1 extrapolate.
pub fn interpolate(a: u8, b: u8, f: u128) -> (r: u8)
    requires
        f <= MAX_FRACTION,
    ensures
        r as int == clamp_channel(lerp(a as int, b as int, f as int)),
        f < ONE ==> r as int == lerp(a as int, b as int, f as int),
{
    proof {
        if f < ONE {
            lemma_lerp_between(a as int, b as int, f as int);
        }
    }
    let d: i128 = b as i128 - a as i128;
    let fi: i128 = f as i128;
    assert(-255 * MAX_FRACTION <= d * fi <= 255 * MAX_FRACTION) by (nonlinear_arith)
        requires
            -255 <= d <= 255,
            0 <= fi <= MAX_FRACTION,
    ;
    let n: i128 = (a as i128) * ONE + d * fi;
    if n < 0 {
        assert(lerp(a as int, b as int, f as int) < 0) by (nonlinear_arith)
            requires
                n < 0,
                n == (a as int) * ONE + ((b as int) - (a as int)) * (f as int),
                lerp(a as int, b as int, f as int) == (n as int) / (ONE as int),
        ;
        0
    } else if n >= 256 * ONE {
        assert(lerp(a as int, b as int, f as int) >= 256) by (nonlinear_arith)
            requires
                n >= 256 * ONE,
                n == (a as int) * ONE + ((b as int) - (a as int)) * (f as int),
                lerp(a as int, b as int, f as int) == (n as int) / (ONE as int),
        ;
        255
    } else {
        assert(0 <= lerp(a as int, b as int, f as int) <= 255) by (nonlinear_arith)
            requires
                0 <= n < 256 * ONE,
                n == (a as int) * ONE + ((b as int) - (a as int)) * (f as int),
                lerp(a as int, b as int, f as int) == (n as int) / (ONE as int),
        ;
        ((n as u128) / (ONE as u128)) as u8
    }
}

/// The colour of an escape result at rotation step `phase`.
pub fn colormap(e: Escape, phase: u32) -> (c: Rgb)
    ensures
        c == color_of(e.value(), phase as int),
{
    match e {
        Escape::Bounded => Rgb { r: 0, g: 0, b: 0 },
        Escape::Smooth(s) => {
            let t: u128 = s / COLOR_SCALE_DIVISOR + (phase as u128) * PHASE_UNIT;
            let i: u128 = t / (ONE as u128);
            let f: u128 = t % (ONE as u128);
            let a = key((i % 5) as u64);
            let b = key(((i + 1) % 5) as u64);
            Rgb { r: interpolate(a.r, b.r, f), g: interpolate(a.g, b.g, f), b: interpolate(a.b, b.b, f) }
        },
    }
}

proof fn lemma_floor_close(n1: int, n2: int)
    requires
        -ONE <= n2 - n1 <= ONE,
    ensures
        -1 <= n2 / (ONE as int) - n1 / (ONE as int) <= 1,
{
    let o = ONE as int;
    lemma_fundamental_div_mod(n1, o);
    lemma_fundamental_div_mod(n2, o);
    let q1 = n1 / o;
    let q2 = n2 / o;
    assert(-1 <= q2 - q1 <= 1) by (nonlinear_arith)
        requires
            n1 == o * q1 + n1 % o,
            n2 == o * q2 + n2 % o,
            0 <= n1 % o < o,
            0 <= n2 % o < o,
            -o <= n2 - n1 <= o,
    ;
}

/// A step of one unit within a segment, or from the end of one segment to
/// the start of the next, moves an interpolated channel by at most one.
proof fn lemma_lerp_step(a: int, b: int, c: int, f: int)
    requires
        0 <= a <= 255,
        0 <= b <= 255,
        0 <= c <= 255,
        0 <= f < ONE,
    ensures
        f + 1 < ONE ==> -1 <= lerp(a, b, f + 1) - lerp(a, b, f) <= 1,
        f + 1 == ONE ==> -1 <= lerp(b, c, 0) - lerp(a, b, f) <= 1,
{
    let o = ONE as int;
    let n1 = a * o + (b - a) * f;
    if f + 1 < ONE {
        let n2 = a * o + (b - a) * (f + 1);
        assert(n2 - n1 == b - a) by (nonlinear_arith)
            requires
                n1 == a * o + (b - a) * f,
                n2 == a * o + (b - a) * (f + 1),
        ;
        lemma_floor_close(n1, n2);
    } else if f + 1 == ONE {
        let n2 = b * o + (c - b) * 0;
        assert(n2 - n1 == b - a) by (nonlinear_arith)
            requires
                n1 == a * o + (b - a) * f,
                n2 == b * o + (c - b) * 0,
                f + 1 == o,
        ;
        lemma_floor_close(n1, n2);
    }
}

/// The palette is continuous: moving the palette position by one unit changes
/// each channel by at most one, across segment boundaries and across the wrap
/// from the last key colour back to the first; and the palette repeats after a
/// full turn of `PALETTE_LEN` units.
pub proof fn lemma_palette_continuous(t: int)
    ensures
        -1 <= palette_color(t + 1).r - palette_color(t).r <= 1,
        -1 <= palette_color(t + 1).g - palette_color(t).g <= 1,
        -1 <= palette_color(t + 1).b - palette_color(t).b <= 1,
        palette_color(t + 5 * ONE) == palette_color(t),
{
    let o = ONE as int;
    lemma_fundamental_div_mod(t, o);
    let i = t / o;
    let f = t % o;
    let a = key_color(i % 5);
    let b = key_color((i + 1) % 5);
    let c = key_color((i + 2) % 5);
    assert((i + 1 + 1) % 5 == (i + 2) % 5);
    lemma_lerp_between(a.r as int, b.r as int, f);
    lemma_lerp_between(a.g as int, b.g as int, f);
    lemma_lerp_between(a.b as int, b.b as int, f);
    lemma_lerp_step(a.r as int, b.r as int, c.r as int, f);
    lemma_lerp_step(a.g as int, b.g as int, c.g as int, f);
    lemma_lerp_step(a.b as int, b.b as int, c.b as int, f);
    if f + 1 < o {
        lemma_fundamental_div_mod_converse(t + 1, o, i, f + 1);
        lemma_lerp_between(a.r as int, b.r as int, f + 1);
        lemma_lerp_between(a.g as int, b.g as int, f + 1);
        lemma_lerp_between(a.b as int, b.b as int, f + 1);
    } else {
        lemma_fundamental_div_mod_converse(t + 1, o, i + 1, 0);
        lemma_lerp_between(b.r as int, c.r as int, 0);
        lemma_lerp_between(b.g as int, c.g as int, 0);
        lemma_lerp_between(b.b as int, c.b as int, 0);
    }
    lemma_fundamental_div_mod_converse(t + 5 * o, o, i + 5, f);
    assert((i + 5) % 5 == i % 5);
    assert((i + 5 + 1) % 5 == (i + 1) % 5);
}

/// A full turn of the rotation phase gives back the same colour.
pub proof fn lemma_phase_wraps(e: Option<int>, phase: int)
    ensures
        color_of(e, phase + PHASE_STEPS) == color_of(e, phase),
{
    if let Some(s) = e {
        let t = palette_position(s, phase);
        assert(palette_position(s, phase + PHASE_STEPS) == t + 5 * ONE);
        lemma_palette_continuous(t);
    }
}

/// Black exactly for bounded orbits: every colour of the palette has a
/// non-zero red channel.
pub proof fn lemma_black_iff_bounded(e: Option<int>, phase: int)
    ensures
        (color_of(e, phase) == black()) <==> e is None,
{
    if let Some(s) = e {
        let t = palette_position(s, phase);
        let o = ONE as int;
        let i = t / o;
        let f = t % o;
        lemma_fundamental_div_mod(t, o);
        let a = key_color(i % 5);
        let b = key_color((i + 1) % 5);
        lemma_lerp_between(a.r as int, b.r as int, f);
        assert(palette_color(t).r != 0);
    }
}

/// Channel `ch` (0 red, 1 green, 2 blue) of a colour.
pub open spec fn channel(c: Rgb, ch: int) -> int {
    if ch == 0 {
        c.r as int
    } else if ch == 1 {
        c.g as int
    } else {
        c.b as int
    }
}

/// Channel `ch` at palette position `t`, before rounding down, times `ONE`.
pub open spec fn channel_numerator(t: int, ch: int) -> int {
    let i = t / (ONE as int);
    let f = t % (ONE as int);
    let a = channel(key_color(i % 5), ch);
    let b = channel(key_color((i + 1) % 5), ch);
    a * ONE + (b - a) * f
}

proof fn lemma_adjacent_keys(i: int, ch: int)
    ensures
        -172 <= channel(key_color((i + 1) % 5), ch) - channel(key_color(i % 5), ch) <= 172,
{
    let k = i % 5;
    assert((i + 1) % 5 == (k + 1) % 5);
    assert(0 <= k < 5);
}

proof fn lemma_channel_value(t: int, ch: int)
    ensures
        channel(palette_color(t), ch) == channel_numerator(t, ch) / (ONE as int),
{
    let o = ONE as int;
    lemma_fundamental_div_mod(t, o);
    let i = t / o;
    let f = t % o;
    let a = key_color(i % 5);
    let b = key_color((i + 1) % 5);
    lemma_lerp_between(a.r as int, b.r as int, f);
    lemma_lerp_between(a.g as int, b.g as int, f);
    lemma_lerp_between(a.b as int, b.b as int, f);
}

proof fn lemma_numerator_step(t: int, ch: int)
    ensures
        -172 <= channel_numerator(t + 1, ch) - channel_numerator(t, ch) <= 172,
{
    let o = ONE as int;
    lemma_fundamental_div_mod(t, o);
    let i = t / o;
    let f = t % o;
    let a = channel(key_color(i % 5), ch);
    let b = channel(key_color((i + 1) % 5), ch);
    let c = channel(key_color((i + 2) % 5), ch);
    lemma_adjacent_keys(i, ch);
    let n1 = a * o + (b - a) * f;
    if f + 1 < o {
        lemma_fundamental_div_mod_converse(t + 1, o, i, f + 1);
        assert(a * o + (b - a) * (f + 1) - n1 == b - a) by (nonlinear_arith)
            requires
                n1 == a * o + (b - a) * f,
        ;
    } else {
        lemma_fundamental_div_mod_converse(t + 1, o, i + 1, 0);
        assert((i + 1 + 1) % 5 == (i + 2) % 5);
        assert(b * o + (c - b) * 0 - n1 == b - a) by (nonlinear_arith)
            requires
                n1 == a * o + (b - a) * f,
                f + 1 == o,
        ;
    }
}

proof fn lemma_numerator_drift(t: int, d: nat, ch: int)
    ensures
        -172 * d <= channel_numerator(t + d, ch) - channel_numerator(t, ch) <= 172 * d,
    decreases d,
{
    if d > 0 {
        lemma_numerator_drift(t, (d - 1) as nat, ch);
        lemma_numerator_step(t + d - 1, ch);
    }
}

proof fn lemma_rotation_channel(s: int, p1: int, p2: int, ch: int)
    requires
        p1 <= p2,
    ensures
        -(860 * (p2 - p1) + 1024) < 1024 * (channel(color_of(Some(s), p2), ch) - channel(
            color_of(Some(s), p1),
            ch,
        )) < 860 * (p2 - p1) + 1024,
{
    let o = ONE as int;
    let t1 = palette_position(s, p1);
    let d = ((p2 - p1) * PHASE_UNIT) as nat;
    assert(palette_position(s, p2) == t1 + d) by (nonlinear_arith)
        requires
            p1 <= p2,
            t1 == palette_position(s, p1),
            d == (p2 - p1) * PHASE_UNIT,
    ;
    lemma_numerator_drift(t1, d, ch);
    lemma_channel_value(t1, ch);
    lemma_channel_value(t1 + d, ch);
    let n1 = channel_numerator(t1, ch);
    let n2 = channel_numerator(t1 + d, ch);
    lemma_fundamental_div_mod(n1, o);
    lemma_fundamental_div_mod(n2, o);
    let c1 = n1 / o;
    let c2 = n2 / o;
    let u: int = 70368744177664;
    let k = p2 - p1;
    assert(o == 1024 * u && PHASE_UNIT == 5 * u);
    assert(-(860 * k + 1024) < 1024 * (c2 - c1) < 860 * k + 1024) by (nonlinear_arith)
        requires
            n1 == o * c1 + n1 % o,
            n2 == o * c2 + n2 % o,
            0 <= n1 % o < o,
            0 <= n2 % o < o,
            -172 * d <= n2 - n1 <= 172 * d,
            d == k * (5 * u),
            o == 1024 * u,
            u > 0,
    ;
}

/// The colour of an escaped point moves continuously with the rotation: over
/// `k` rotation steps (`k / 1024` of a turn) each channel changes by less than
/// `860 * k / 1024 + 1`, where 860 is five times the largest step between
/// neighbouring key colours and the 1 is the rounding down.
pub proof fn lemma_rotation_continuous(s: int, p1: int, p2: int)
    requires
        p1 <= p2,
    ensures
        -(860 * (p2 - p1) + 1024) < 1024 * (color_of(Some(s), p2).r - color_of(Some(s), p1).r) < 860
            * (p2 - p1) + 1024,
        -(860 * (p2 - p1) + 1024) < 1024 * (color_of(Some(s), p2).g - color_of(Some(s), p1).g) < 860
            * (p2 - p1) + 1024,
        -(860 * (p2 - p1) + 1024) < 1024 * (color_of(Some(s), p2).b - color_of(Some(s), p1).b) < 860
            * (p2 - p1) + 1024,
{
    lemma_rotation_channel(s, p1, p2, 0);
    lemma_rotation_channel(s, p1, p2, 1);
    lemma_rotation_channel(s, p1, p2, 2);
}

} // verus!
