//! The camera: a centre in the complex plane, a zoom level, the render size,
//! the iteration bound and the resolution divisor, with the pixel transform.
use vstd::prelude::*;
use crate::fixed::{ONE, TWO};
use vstd::arithmetic::div_mod::{lemma_fundamental_div_mod, lemma_div_is_ordered, lemma_div_denominator};

verus! {

/// The viewport. Coordinates are fixed point; `zoom` counts tenths of a power
/// of ten, so the view's height in the plane is `4 * 10^(-zoom / 10)`.
#[derive(Clone, Copy, Debug, PartialEq, Eq, Structural)]
pub struct Zoom {
    pub center_x: i128,
    pub center_y: i128,
    pub zoom: u32,
    pub width: u32,
    pub height: u32,
    pub side: i128,
    pub x0: i128,
    pub y0: i128,
    pub max_iter: u64,
    pub resolution: u32,
}

/// Iteration bound of a fresh viewport.
pub const DEFAULT_MAX_ITER: u64 = 200;

/// Resolution divisor of a fresh viewport.
pub const DEFAULT_RESOLUTION: u32 = 4;

/// Smallest iteration bound and smallest resolution divisor.
pub const MIN_SETTING: u64 = 2;

/// Pan step as a fraction of the view's height: one tenth.
pub const PAN_DIVISOR: i128 = 10;

/// `10^(-r / 10)` in fixed point, for the tenths `r` in `0..10`.
pub open spec fn tenth_power(r: int) -> int {
    if r == 0 {
        72057594037927936
    } else if r == 1 {
        57237381470626209
    } else if r == 2 {
        45465268183802816
    } else if r == 3 {
        36114346217706131
    } else if r == 4 {
        28686644879332043
    } else if r == 5 {
        22786611987162171
    } else if r == 6 {
        18100049275109680
    } else if r == 7 {
        14377380189120383
    } else if r == 8 {
        11420359025583850
    } else {
        9071513624709535
    }
}

pub open spec fn pow10(q: nat) -> int
    decreases q,
{
    if q == 0 {
        1
    } else {
        10 * pow10((q - 1) as nat)
    }
}

/// Height of the view in the plane at zoom level `z`: `4 * 10^(-z / 10)`.
pub open spec fn side_of(z: int) -> int {
    (4 * tenth_power(z % 10)) / pow10((z / 10) as nat)
}

/// `n * side / h` for a pixel count `n`, and zero for an empty render.
pub open spec fn span(n: int, side: int, h: int) -> int {
    if h == 0 {
        0
    } else {
        (n * side) / h
    }
}

pub open spec fn max_int(a: int, b: int) -> int {
    if a >= b {
        a
    } else {
        b
    }
}

pub open spec fn min_int(a: int, b: int) -> int {
    if a <= b {
        a
    } else {
        b
    }
}

impl Zoom {
    /// The state invariant: the centre within the square of side 4 around the
    /// origin, the side consistent with the zoom, bounds of at least 2, and the
    /// transform consistent with centre, side and size.
    pub open spec fn wf(self) -> bool {
        &&& -TWO <= self.center_x <= TWO
        &&& -TWO <= self.center_y <= TWO
        &&& self.side == side_of(self.zoom as int)
        &&& self.max_iter >= MIN_SETTING
        &&& self.resolution >= MIN_SETTING
        &&& self.x0 == self.center_x - span(self.width as int / 2, self.side as int, self.height as int)
        &&& self.y0 == self.center_y + self.side / 2
    }

    /// The same viewport with the given centre, zoom and size, and the derived
    /// fields recomputed.
    pub open spec fn placed(self, cx: int, cy: int, zoom: int, w: int, h: int) -> Zoom {
        let side = side_of(zoom);
        Zoom {
            center_x: cx as i128,
            center_y: cy as i128,
            zoom: zoom as u32,
            width: w as u32,
            height: h as u32,
            side: side as i128,
            x0: (cx - span(w / 2, side, h)) as i128,
            y0: (cy + side / 2) as i128,
            ..self
        }
    }

    pub open spec fn moved(self, cx: int, cy: int) -> Zoom {
        self.placed(cx, cy, self.zoom as int, self.width as int, self.height as int)
    }

    pub open spec fn up_spec(self) -> Zoom {
        self.moved(self.center_x as int, max_int(-TWO, self.center_y - self.side / PAN_DIVISOR))
    }

    pub open spec fn down_spec(self) -> Zoom {
        self.moved(self.center_x as int, min_int(TWO as int, self.center_y + self.side / PAN_DIVISOR))
    }

    pub open spec fn left_spec(self) -> Zoom {
        self.moved(max_int(-TWO, self.center_x - self.side / PAN_DIVISOR), self.center_y as int)
    }

    pub open spec fn right_spec(self) -> Zoom {
        self.moved(min_int(TWO as int, self.center_x + self.side / PAN_DIVISOR), self.center_y as int)
    }

    pub open spec fn zoom_in_spec(self) -> Zoom {
        let z = if self.zoom < u32::MAX {
            self.zoom + 1
        } else {
            self.zoom as int
        };
        self.placed(self.center_x as int, self.center_y as int, z, self.width as int, self.height as int)
    }

    pub open spec fn zoom_out_spec(self) -> Zoom {
        let z = if self.zoom > 0 {
            self.zoom - 1
        } else {
            0
        };
        self.placed(self.center_x as int, self.center_y as int, z, self.width as int, self.height as int)
    }

    pub open spec fn more_iter_spec(self, inc: u64) -> Zoom {
        Zoom { max_iter: min_int(self.max_iter + inc, u64::MAX as int) as u64, ..self }
    }

    pub open spec fn less_iter_spec(self, dec: u64) -> Zoom {
        Zoom { max_iter: max_int(MIN_SETTING as int, self.max_iter - dec) as u64, ..self }
    }

    pub open spec fn more_resolution_spec(self) -> Zoom {
        Zoom { resolution: max_int(MIN_SETTING as int, self.resolution - 1) as u32, ..self }
    }

    pub open spec fn less_resolution_spec(self) -> Zoom {
        Zoom { resolution: min_int(self.resolution + 1, u32::MAX as int) as u32, ..self }
    }

    pub open spec fn set_size_spec(self, w: u32, h: u32) -> Zoom {
        self.placed(self.center_x as int, self.center_y as int, self.zoom as int, w as int, h as int)
    }

    /// Plane abscissa of pixel column `x`.
    pub open spec fn pixel_x(self, x: int) -> int {
        self.x0 + span(x, self.side as int, self.height as int)
    }

    /// Plane ordinate of pixel row `y`.
    pub open spec fn pixel_y(self, y: int) -> int {
        self.y0 - span(y, self.side as int, self.height as int)
    }
}

proof fn lemma_pow10_grows(a: nat, b: nat)
    requires
        a <= b,
    ensures
        1 <= pow10(a) <= pow10(b),
    decreases b,
{
    if b > 0 {
        if a < b {
            lemma_pow10_grows(a, (b - 1) as nat);
        } else {
            lemma_pow10_grows(0, (b - 1) as nat);
        }
    }
}

/// Zooming in one tenth never makes the view taller.
pub proof fn lemma_side_decreasing(z: int)
    requires
        z >= 0,
    ensures
        side_of(z + 1) <= side_of(z),
{
    let q = (z / 10) as nat;
    let r = z % 10;
    let p = pow10(q);
    lemma_pow10_grows(0, q);
    if r < 9 {
        assert((z + 1) / 10 == z / 10 && (z + 1) % 10 == r + 1);
        lemma_div_is_ordered(4 * tenth_power(r + 1), 4 * tenth_power(r), p);
    } else {
        assert((z + 1) / 10 == z / 10 + 1 && (z + 1) % 10 == 0);
        assert(pow10(q + 1) == 10 * p);
        lemma_div_denominator(4 * tenth_power(0), 10, p);
        lemma_div_is_ordered(4 * tenth_power(0) / 10, 4 * tenth_power(9), p);
    }
}

/// The view's height is between 0 and 4.
pub proof fn lemma_side_range(z: int)
    requires
        z >= 0,
    ensures
        0 <= side_of(z) <= 4 * ONE,
{
    let p = pow10((z / 10) as nat);
    lemma_pow10_grows(0, (z / 10) as nat);
    let n = 4 * tenth_power(z % 10);
    assert(0 < n <= 4 * ONE);
    assert(n / p <= n) by (nonlinear_arith)
        requires
            p >= 1,
            n >= 0,
    ;
}

fn tenth_power_exec(r: u32) -> (t: i128)
    requires
        r < 10,
    ensures
        t == tenth_power(r as int),
{
    if r == 0 {
        72057594037927936
    } else if r == 1 {
        57237381470626209
    } else if r == 2 {
        45465268183802816
    } else if r == 3 {
        36114346217706131
    } else if r == 4 {
        28686644879332043
    } else if r == 5 {
        22786611987162171
    } else if r == 6 {
        18100049275109680
    } else if r == 7 {
        14377380189120383
    } else if r == 8 {
        11420359025583850
    } else {
        9071513624709535
    }
}

proof fn lemma_span_range(n: int, side: int, h: int)
    requires
        0 <= n <= u32::MAX,
        0 <= side <= 4 * ONE,
        0 <= h,
    ensures
        0 <= span(n, side, h) <= 0x400000000000000 * 0x100000000,
{
    if h > 0 {
        assert(0 <= n * side <= 0x400000000000000 * 0x100000000) by (nonlinear_arith)
            requires
                0 <= n <= u32::MAX,
                0 <= side <= 4 * ONE,
        ;
        assert((n * side) / h <= n * side) by (nonlinear_arith)
            requires
                h >= 1,
                n * side >= 0,
        ;
    }
}

impl Zoom {
    /// Placing a well-formed view anywhere in the square around the origin
    /// keeps it well formed.
    pub proof fn lemma_placed_wf(self, cx: int, cy: int, zoom: u32, w: u32, h: u32)
        requires
            self.wf(),
            -TWO <= cx <= TWO,
            -TWO <= cy <= TWO,
        ensures
            self.placed(cx, cy, zoom as int, w as int, h as int).wf(),
    {
        lemma_side_range(zoom as int);
        lemma_span_range(w as int / 2, side_of(zoom as int), h as int);
    }
}

/// Zoom levels from this many powers of ten on leave a view of height zero.
const DEEPEST_POWER: u32 = 18;

/// Height of the view in the plane at zoom level `zoom` (tenths of a power of ten).
pub fn calc_side(zoom: u32) -> (s: i128)
    ensures
        s == side_of(zoom as int),
        0 <= s <= 4 * ONE,
{
    proof {
        lemma_side_range(zoom as int);
    }
    let q: u32 = zoom / 10;
    let t: i128 = tenth_power_exec(zoom % 10);
    if q >= DEEPEST_POWER {
        proof {
            lemma_pow10_grows(18, q as nat);
            reveal_with_fuel(pow10, 19);
            vstd::arithmetic::div_mod::lemma_basic_div(4 * t as int, pow10(q as nat));
        }
        return 0;
    }
    let mut p: i128 = 1;
    let mut j: u32 = 0;
    while j < q
        invariant
            j <= q < DEEPEST_POWER,
            p == pow10(j as nat),
            p >= 1,
        decreases q - j,
    {
        proof {
            lemma_pow10_grows((j + 1) as nat, 17);
            reveal_with_fuel(pow10, 18);
        }
        p = p * 10;
        j = j + 1;
    }
    proof {
        lemma_pow10_grows(0, j as nat);
    }
    4 * t / p
}

impl Zoom {
    /// Moves the view to the given centre, zoom and size.
    fn place(&mut self, cx: i128, cy: i128, zoom: u32, w: u32, h: u32)
        requires
            -TWO <= cx <= TWO,
            -TWO <= cy <= TWO,
        ensures
            *final(self) == old(self).placed(cx as int, cy as int, zoom as int, w as int, h as int),
    {
        let side = calc_side(zoom);
        let half: u128 = (w / 2) as u128;
        let su: u128 = side as u128;
        let span: u128 = if h == 0 {
            0
        } else {
            assert(half * su <= 0x80000000 * 0x400000000000000) by (nonlinear_arith)
                requires
                    half <= 0x80000000,
                    su <= 0x400000000000000,
            ;
            let prod: u128 = half * su;
            prod / (h as u128)
        };
        self.center_x = cx;
        self.center_y = cy;
        self.zoom = zoom;
        self.width = w;
        self.height = h;
        self.side = side;
        self.x0 = cx - span as i128;
        self.y0 = cy + side / 2;
    }

    /// Pans up: the centre's ordinate decreases by a tenth of the view height,
    /// down to -2.
    pub fn up(&mut self)
        requires
            old(self).wf(),
        ensures
            *final(self) == old(self).up_spec(),
            final(self).wf(),
    {
        proof {
            lemma_side_range(self.zoom as int);
        }
        let step: i128 = self.side / PAN_DIVISOR;
        let cy = if self.center_y - step < -TWO {
            -TWO
        } else {
            self.center_y - step
        };
        proof {
            self.lemma_placed_wf(self.center_x as int, cy as int, self.zoom, self.width, self.height);
        }
        self.place(self.center_x, cy, self.zoom, self.width, self.height);
    }

    /// Pans down: the centre's ordinate increases by a tenth of the view
    /// height, up to 2.
    pub fn down(&mut self)
        requires
            old(self).wf(),
        ensures
            *final(self) == old(self).down_spec(),
            final(self).wf(),
    {
        proof {
            lemma_side_range(self.zoom as int);
        }
        let step: i128 = self.side / PAN_DIVISOR;
        let cy = if self.center_y + step > TWO {
            TWO
        } else {
            self.center_y + step
        };
        proof {
            self.lemma_placed_wf(self.center_x as int, cy as int, self.zoom, self.width, self.height);
        }
        self.place(self.center_x, cy, self.zoom, self.width, self.height);
    }

    /// Pans left: the centre's abscissa decreases by a tenth of the view
    /// height, down to -2.
    pub fn left(&mut self)
        requires
            old(self).wf(),
        ensures
            *final(self) == old(self).left_spec(),
            final(self).wf(),
    {
        proof {
            lemma_side_range(self.zoom as int);
        }
        let step: i128 = self.side / PAN_DIVISOR;
        let cx = if self.center_x - step < -TWO {
            -TWO
        } else {
            self.center_x - step
        };
        proof {
            self.lemma_placed_wf(cx as int, self.center_y as int, self.zoom, self.width, self.height);
        }
        self.place(cx, self.center_y, self.zoom, self.width, self.height);
    }

    /// Pans right: the centre's abscissa increases by a tenth of the view
    /// height, up to 2.
    pub fn right(&mut self)
        requires
            old(self).wf(),
        ensures
            *final(self) == old(self).right_spec(),
            final(self).wf(),
    {
        proof {
            lemma_side_range(self.zoom as int);
        }
        let step: i128 = self.side / PAN_DIVISOR;
        let cx = if self.center_x + step > TWO {
            TWO
        } else {
            self.center_x + step
        };
        proof {
            self.lemma_placed_wf(cx as int, self.center_y as int, self.zoom, self.width, self.height);
        }
        self.place(cx, self.center_y, self.zoom, self.width, self.height);
    }

    /// Zooms in by a tenth of a power of ten.
    pub fn zoom_in(&mut self)
        requires
            old(self).wf(),
        ensures
            *final(self) == old(self).zoom_in_spec(),
            final(self).wf(),
            final(self).side <= old(self).side,
    {
        proof {
            lemma_side_decreasing(self.zoom as int);
        }
        let z: u32 = if self.zoom < u32::MAX {
            self.zoom + 1
        } else {
            self.zoom
        };
        proof {
            self.lemma_placed_wf(self.center_x as int, self.center_y as int, z, self.width, self.height);
        }
        self.place(self.center_x, self.center_y, z, self.width, self.height);
    }

    /// Zooms out by a tenth of a power of ten, no further than zoom level 0.
    pub fn zoom_out(&mut self)
        requires
            old(self).wf(),
        ensures
            *final(self) == old(self).zoom_out_spec(),
            final(self).wf(),
            final(self).side >= old(self).side,
    {
        proof {
            if self.zoom > 0 {
                lemma_side_decreasing(self.zoom - 1);
            }
        }
        let z: u32 = if self.zoom > 0 {
            self.zoom - 1
        } else {
            0
        };
        proof {
            self.lemma_placed_wf(self.center_x as int, self.center_y as int, z, self.width, self.height);
        }
        self.place(self.center_x, self.center_y, z, self.width, self.height);
    }

    /// Raises the iteration bound by `inc`, saturating at the largest `u64`.
    pub fn more_iter(&mut self, inc: u64)
        requires
            old(self).wf(),
        ensures
            *final(self) == old(self).more_iter_spec(inc),
            final(self).wf(),
    {
        self.max_iter = self.max_iter.saturating_add(inc);
    }

    /// Lowers the iteration bound by `dec`, no lower than 2.
    pub fn less_iter(&mut self, dec: u64)
        requires
            old(self).wf(),
        ensures
            *final(self) == old(self).less_iter_spec(dec),
            final(self).wf(),
    {
        let m = self.max_iter.saturating_sub(dec);
        self.max_iter = if m < MIN_SETTING {
            MIN_SETTING
        } else {
            m
        };
    }

    /// Sharpens the image: the resolution divisor decreases by one, no lower than 2.
    pub fn more_resolution(&mut self)
        requires
            old(self).wf(),
        ensures
            *final(self) == old(self).more_resolution_spec(),
            final(self).wf(),
    {
        self.resolution = if self.resolution <= MIN_SETTING as u32 {
            MIN_SETTING as u32
        } else {
            self.resolution - 1
        };
    }

    /// Coarsens the image: the resolution divisor increases by one.
    pub fn less_resolution(&mut self)
        requires
            old(self).wf(),
        ensures
            *final(self) == old(self).less_resolution_spec(),
            final(self).wf(),
    {
        self.resolution = self.resolution.saturating_add(1);
    }

    /// Sets the render size in pixels and recomputes the transform.
    pub fn set_size(&mut self, sz: (u32, u32))
        requires
            old(self).wf(),
        ensures
            *final(self) == old(self).set_size_spec(sz.0, sz.1),
            final(self).wf(),
    {
        proof {
            self.lemma_placed_wf(self.center_x as int, self.center_y as int, self.zoom, sz.0, sz.1);
        }
        self.place(self.center_x, self.center_y, self.zoom, sz.0, sz.1);
    }

    /// Plane abscissa of pixel column `x`.
    pub fn get_cx(&self, x: u32) -> (r: i128)
        requires
            self.wf(),
        ensures
            r == self.pixel_x(x as int),
    {
        proof {
            lemma_side_range(self.zoom as int);
            lemma_span_range(self.width as int / 2, self.side as int, self.height as int);
            lemma_span_range(x as int, self.side as int, self.height as int);
        }
        self.x0 + span_exec(x, self.side, self.height)
    }

    /// Plane ordinate of pixel row `y`.
    pub fn get_cy(&self, y: u32) -> (r: i128)
        requires
            self.wf(),
        ensures
            r == self.pixel_y(y as int),
    {
        proof {
            lemma_side_range(self.zoom as int);
            lemma_span_range(y as int, self.side as int, self.height as int);
        }
        self.y0 - span_exec(y, self.side, self.height)
    }
}

fn span_exec(n: u32, side: i128, h: u32) -> (r: i128)
    requires
        0 <= side <= 4 * ONE,
    ensures
        r == span(n as int, side as int, h as int),
{
    proof {
        lemma_span_range(n as int, side as int, h as int);
    }
    if h == 0 {
        0
    } else {
        let su: u128 = side as u128;
        assert((n as u128) * su <= 0x100000000 * 0x400000000000000) by (nonlinear_arith)
            requires
                n <= 0x100000000,
                su <= 0x400000000000000,
        ;
        let prod: u128 = (n as u128) * su;
        (prod / (h as u128)) as i128
    }
}

impl Default for Zoom {
    /// The start-up view: centred on the origin at zoom level 0, iteration
    /// bound 200, resolution divisor 4, no size yet.
    fn default() -> (z: Self)
        ensures
            z.wf(),
            z.center_x == 0 && z.center_y == 0 && z.zoom == 0,
            z.width == 0 && z.height == 0,
            z.side == 4 * ONE,
            z.max_iter == DEFAULT_MAX_ITER && z.resolution == DEFAULT_RESOLUTION,
    {
        let side = calc_side(0);
        proof {
            reveal_with_fuel(pow10, 1);
        }
        Zoom {
            center_x: 0,
            center_y: 0,
            zoom: 0,
            width: 0,
            height: 0,
            side,
            x0: 0,
            y0: side / 2,
            max_iter: DEFAULT_MAX_ITER,
            resolution: DEFAULT_RESOLUTION,
        }
    }
}

proof fn lemma_half_rows(s: int, h: int)
    requires
        s >= 0,
        h >= 1,
    ensures
        0 <= s / 2 - ((h / 2) * s) / h <= s / h + 1,
        2 * h * (s / 2 - ((h / 2) * s) / h) < s + 2 * h,
{
    let m = h / 2;
    let e = h % 2;
    lemma_fundamental_div_mod(h, 2);
    lemma_fundamental_div_mod(s, 2);
    lemma_fundamental_div_mod(m * s, h);
    lemma_fundamental_div_mod(s, h);
    let a = s / 2;
    let r1 = s % 2;
    let b = (m * s) / h;
    let r2 = (m * s) % h;
    let c = s / h;
    let r3 = s % h;
    assert(2 * h * (a - b) == e * s - h * r1 + 2 * r2) by (nonlinear_arith)
        requires
            h == 2 * m + e,
            s == 2 * a + r1,
            m * s == h * b + r2,
    ;
    assert(0 <= e * s <= s) by (nonlinear_arith)
        requires
            0 <= e <= 1,
            s >= 0,
    ;
    assert(0 <= a - b) by (nonlinear_arith)
        requires
            2 * h * (a - b) == e * s - h * r1 + 2 * r2,
            0 <= e * s,
            0 <= r1 <= 1,
            0 <= r2 < h,
            h >= 1,
    ;
    assert(2 * h * (a - b) < s + 2 * h) by (nonlinear_arith)
        requires
            2 * h * (a - b) == e * s - h * r1 + 2 * r2,
            e * s <= s,
            0 <= r1,
            0 <= r2 < h,
    ;
    assert(a - b <= c + 1) by (nonlinear_arith)
        requires
            2 * h * (a - b) == e * s - h * r1 + 2 * r2,
            e * s <= s,
            0 <= r1,
            0 <= r2 < h,
            s == h * c + r3,
            0 <= r3 < h,
            c >= 0,
            h >= 1,
    ;
}

/// After `set_size(w, h)`, the centre pixel `(w / 2, h / 2)` maps back to the
/// centre of the view: exactly in abscissa, and in ordinate to within one
/// pixel step `side / h` (rounded down) and one unit of the last place, and
/// indeed to less than half a pixel step plus one unit. The unit is needed
/// once the view is fewer units tall than the image has rows. Every other pixel
/// lies a whole number of pixel steps (rounded down) away from it.
pub proof fn lemma_center_pixel(z: Zoom, w: u32, h: u32)
    requires
        z.wf(),
        h > 0,
    ensures
        z.set_size_spec(w, h).pixel_x(w as int / 2) == z.center_x,
        0 <= z.set_size_spec(w, h).pixel_y(h as int / 2) - z.center_y <= (z.side as int) / (h as int) + 1,
        2 * (h as int) * (z.set_size_spec(w, h).pixel_y(h as int / 2) - z.center_y) < z.side + 2 * (
        h as int),
        forall|x: int|
            #![trigger z.set_size_spec(w, h).pixel_x(x)]
            z.set_size_spec(w, h).pixel_x(x) == z.center_x + (x * z.side) / (h as int) - ((
            w as int / 2) * z.side) / (h as int),
        forall|y: int|
            #![trigger z.set_size_spec(w, h).pixel_y(y)]
            z.set_size_spec(w, h).pixel_y(y) == z.center_y + z.side / 2 - (y * z.side) / (h as int),
{
    let v = z.set_size_spec(w, h);
    z.lemma_placed_wf(z.center_x as int, z.center_y as int, z.zoom, w, h);
    lemma_side_range(z.zoom as int);
    lemma_half_rows(z.side as int, h as int);
}

} // verus!
