//! The viewport's state as a line of text: centre, zoom and iteration bound.
use vstd::prelude::*;
use crate::fixed::ONE;
use crate::viewport::Zoom;

verus! {

/// Decimal places kept when a fixed-point value is written out.
pub const DECIMAL_SCALE: u128 = 1000000000000000;

/// Largest magnitude that `push_decimal` writes: 2 to the 64th in fixed point.
pub const DECIMAL_BOUND: i128 = 0x10000000000000000;

/// ASCII code of the digit `d`.
pub open spec fn digit(d: int) -> u8 {
    (48 + d % 10) as u8
}

/// Decimal digits of `n`, without leading zeros.
pub open spec fn digits(n: nat) -> Seq<u8>
    decreases n,
{
    if n < 10 {
        seq![digit(n as int)]
    } else {
        digits(n / 10) + seq![digit((n % 10) as int)]
    }
}

/// Digits of a fraction `f / (10 * scale)`, up to the last non-zero one.
pub open spec fn fraction_digits(f: nat, scale: nat) -> Seq<u8>
    decreases scale,
{
    if f == 0 || scale == 0 {
        seq![]
    } else {
        seq![digit((f / scale) as int)] + fraction_digits(f % scale, scale / 10)
    }
}

/// `|v|` in units of `10^-15`, rounded to nearest, halves up.
pub open spec fn scaled_magnitude(v: int) -> int {
    let m = if v < 0 {
        -v
    } else {
        v
    };
    (2 * m * DECIMAL_SCALE + ONE) / (2 * ONE)
}

/// A fixed-point value in decimal, rounded to 15 places, without trailing
/// zeros: `0.4`, `-1.25`, `0`.
pub open spec fn decimal_text(v: int) -> Seq<u8> {
    let n = scaled_magnitude(v);
    let sign: Seq<u8> = if v < 0 && n > 0 {
        seq![45u8]
    } else {
        seq![]
    };
    let units = digits((n / DECIMAL_SCALE as int) as nat);
    let f = n % DECIMAL_SCALE as int;
    if f == 0 {
        sign + units
    } else {
        sign + units + seq![46u8] + fraction_digits(f as nat, (DECIMAL_SCALE / 10) as nat)
    }
}

/// A zoom level in tenths, in decimal: `0`, `0.1`, `12.5`.
pub open spec fn tenths_text(z: nat) -> Seq<u8> {
    if z % 10 == 0 {
        digits(z / 10)
    } else {
        digits(z / 10) + seq![46u8, digit((z % 10) as int)]
    }
}

pub open spec fn prefix_text() -> Seq<u8> {
    seq![90u8, 111, 111, 109, 58, 32, 40]
}

pub open spec fn zoom_label() -> Seq<u8> {
    seq![41u8, 44, 32, 122, 111, 111, 109, 61, 49, 48, 94]
}

pub open spec fn iter_label() -> Seq<u8> {
    seq![44u8, 32, 109, 97, 120, 105, 116, 101, 114, 61]
}

/// `Zoom: (<x>,<y>), zoom=10^<z>, maxiter=<n>`.
pub open spec fn describe_spec(z: Zoom) -> Seq<u8> {
    prefix_text() + decimal_text(z.center_x as int) + seq![44u8] + decimal_text(z.center_y as int)
        + zoom_label() + tenths_text(z.zoom as nat) + iter_label() + digits(z.max_iter as nat)
}

/// Appends the decimal digits of `n`.
pub fn push_digits(out: &mut Vec<u8>, n: u128)
    ensures
        final(out)@ == old(out)@ + digits(n as nat),
    decreases n,
{
    if n >= 10 {
        push_digits(out, n / 10);
    }
    out.push((48 + n % 10) as u8);
    assert(final(out)@ =~= old(out)@ + digits(n as nat));
}

fn push_fraction(out: &mut Vec<u8>, f: u128, scale: u128)
    ensures
        final(out)@ == old(out)@ + fraction_digits(f as nat, scale as nat),
    decreases scale,
{
    if f == 0 || scale == 0 {
        return;
    }
    out.push((48 + (f / scale) % 10) as u8);
    push_fraction(out, f % scale, scale / 10);
    assert(final(out)@ =~= old(out)@ + fraction_digits(f as nat, scale as nat));
}

fn push_all(out: &mut Vec<u8>, src: &Vec<u8>)
    ensures
        final(out)@ == old(out)@ + src@,
{
    let mut i: usize = 0;
    while i < src.len()
        invariant
            i <= src@.len(),
            out@ == old(out)@ + src@.subrange(0, i as int),
        decreases src@.len() - i,
    {
        out.push(src[i]);
        i = i + 1;
        assert(out@ =~= old(out)@ + src@.subrange(0, i as int));
    }
    assert(src@.subrange(0, i as int) =~= src@);
}

/// Appends a fixed-point value in decimal.
pub fn push_decimal(out: &mut Vec<u8>, v: i128)
    requires
        -DECIMAL_BOUND <= v <= DECIMAL_BOUND,
    ensures
        final(out)@ == old(out)@ + decimal_text(v as int),
{
    let m: u128 = if v < 0 {
        (-v) as u128
    } else {
        v as u128
    };
    let n: u128 = (2 * m * DECIMAL_SCALE + ONE as u128) / (2 * ONE as u128);
    if v < 0 && n > 0 {
        out.push(45u8);
    }
    push_digits(out, n / DECIMAL_SCALE);
    let f = n % DECIMAL_SCALE;
    if f != 0 {
        out.push(46u8);
        push_fraction(out, f, DECIMAL_SCALE / 10);
    }
    assert(final(out)@ =~= old(out)@ + decimal_text(v as int));
}

impl Zoom {
    /// The state line that the viewer prints on request.
    pub fn describe(&self) -> (r: Vec<u8>)
        requires
            self.wf(),
        ensures
            r@ == describe_spec(*self),
    {
        let mut out: Vec<u8> = vec![90u8, 111, 111, 109, 58, 32, 40];
        push_decimal(&mut out, self.center_x);
        out.push(44u8);
        push_decimal(&mut out, self.center_y);
        push_all(&mut out, &vec![41u8, 44, 32, 122, 111, 111, 109, 61, 49, 48, 94]);
        push_digits(&mut out, (self.zoom / 10) as u128);
        if self.zoom % 10 != 0 {
            out.push(46u8);
            out.push((48 + self.zoom % 10) as u8);
        }
        push_all(&mut out, &vec![44u8, 32, 109, 97, 120, 105, 116, 101, 114, 61]);
        push_digits(&mut out, self.max_iter as u128);
        assert(out@ =~= describe_spec(*self));
        out
    }
}

} // verus!
