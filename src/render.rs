//! Filling a 32-bit pixel buffer, row by row: each pixel is the palette colour
//! of the escape result of its point of the plane, written blue, green, red,
//! then an opaque alpha.
use vstd::prelude::*;
use vstd::arithmetic::div_mod::{lemma_fundamental_div_mod, lemma_fundamental_div_mod_converse};
use rayon::slice::ParallelSliceMut;
use rayon::iter::{IndexedParallelIterator, ParallelIterator};
use crate::escape::{mand, escape_value};
use crate::palette::{colormap, color_of, Rgb};
use crate::viewport::Zoom;

verus! {

/// Bytes per pixel.
pub const PIXEL_BYTES: usize = 4;

/// Alpha of every written pixel: opaque.
pub const OPAQUE: u8 = 255;

/// Colour of pixel `(x, y)` of the view at rotation step `phase`.
pub open spec fn pixel_color(v: Zoom, phase: int, x: int, y: int) -> Rgb {
    color_of(escape_value(v.pixel_x(x), v.pixel_y(y), v.max_iter as nat), phase)
}

/// Byte `i` of row `y`: channel `i % 4` of pixel `i / 4`, in the order blue,
/// green, red, alpha.
pub open spec fn row_byte(v: Zoom, phase: int, y: int, i: int) -> u8 {
    let c = pixel_color(v, phase, i / 4, y);
    if i % 4 == 0 {
        c.b
    } else if i % 4 == 1 {
        c.g
    } else if i % 4 == 2 {
        c.r
    } else {
        OPAQUE
    }
}

/// The buffer after rendering the view's `height` rows of `stride` bytes: the
/// first `4 * width` bytes of each row hold its pixels; every other byte is
/// left as it was.
pub open spec fn rendered_frame(old: Seq<u8>, v: Zoom, phase: int, stride: int) -> Seq<u8> {
    Seq::new(
        old.len(),
        |p: int|
            if p / stride < v.height && p % stride < 4 * v.width {
                row_byte(v, phase, p / stride, p % stride)
            } else {
                old[p]
            },
    )
}

/// The buffer layout that rendering needs: non-empty rows of at least
/// `4 * width` bytes, and `height` of them in the buffer.
pub open spec fn layout_fits(len: int, v: Zoom, stride: int) -> bool {
    &&& stride > 0
    &&& 4 * v.width <= stride
    &&& stride * v.height <= len
}

/// Draws row `y` of the view into the `4 * width` bytes of `tex` that start at
/// `start`; nothing else changes.
pub fn draw_row_rgba32(tex: &mut [u8], start: usize, zoom: &Zoom, y: u32, phase: u32)
    requires
        zoom.wf(),
        start + 4 * zoom.width <= old(tex)@.len(),
    ensures
        final(tex)@.len() == old(tex)@.len(),
        forall|p: int|
            0 <= p < old(tex)@.len() ==> #[trigger] final(tex)@[p] == if start <= p < start + 4
                * zoom.width {
                row_byte(*zoom, phase as int, y as int, p - start)
            } else {
                old(tex)@[p]
            },
{
    let cy = zoom.get_cy(y);
    let w = zoom.width;
    let len = tex.len();
    let mut x: u32 = 0;
    while x < w
        invariant
            len == tex@.len(),
            zoom.wf(),
            w == zoom.width,
            x <= w,
            cy == zoom.pixel_y(y as int),
            start + 4 * w <= tex@.len(),
            tex@.len() == old(tex)@.len(),
            forall|p: int|
                0 <= p < tex@.len() ==> #[trigger] tex@[p] == if start <= p < start + 4 * x {
                    row_byte(*zoom, phase as int, y as int, p - start)
                } else {
                    old(tex)@[p]
                },
        decreases w - x,
    {
        let cx = zoom.get_cx(x);
        let color = colormap(mand(cx, cy, zoom.max_iter), phase);
        let at: usize = start + 4 * (x as usize);
        tex[at] = color.b;
        tex[at + 1] = color.g;
        tex[at + 2] = color.r;
        tex[at + 3] = OPAQUE;
        assert forall|p: int| 0 <= p < tex@.len() implies #[trigger] tex@[p] == if start <= p < start
            + 4 * (x + 1) {
            row_byte(*zoom, phase as int, y as int, p - start)
        } else {
            old(tex)@[p]
        } by {
            if at <= p < at + 4 {
                assert((p - start) / 4 == x as int);
                assert((p - start) % 4 == p - at);
            }
        }
        x = x + 1;
    }
}

/// Renders the whole view into `buf`, one row after the other.
pub fn render_frame(buf: &mut [u8], stride: usize, zoom: &Zoom, phase: u32)
    requires
        zoom.wf(),
        layout_fits(old(buf)@.len() as int, *zoom, stride as int),
    ensures
        final(buf)@ == rendered_frame(old(buf)@, *zoom, phase as int, stride as int),
{
    let h = zoom.height;
    let len = buf.len();
    let mut y: u32 = 0;
    while y < h
        invariant
            len == buf@.len(),
            zoom.wf(),
            h == zoom.height,
            y <= h,
            layout_fits(buf@.len() as int, *zoom, stride as int),
            buf@.len() == old(buf)@.len(),
            forall|p: int|
                0 <= p < buf@.len() ==> #[trigger] buf@[p] == if p / (stride as int) < y && p % (
                stride as int) < 4 * zoom.width {
                    row_byte(*zoom, phase as int, p / (stride as int), p % (stride as int))
                } else {
                    old(buf)@[p]
                },
        decreases h - y,
    {
        assert((y as int + 1) * stride <= (h as int) * stride) by (nonlinear_arith)
            requires
                y < h,
                stride >= 0,
        ;
        assert((y as int + 1) * stride == (y as int) * stride + stride) by (nonlinear_arith);
        let start: usize = (y as usize) * stride;
        let ghost before = buf@;
        draw_row_rgba32(buf, start, zoom, y, phase);
        assert forall|p: int| 0 <= p < buf@.len() implies #[trigger] buf@[p] == if p / (
        stride as int) < y + 1 && p % (stride as int) < 4 * zoom.width {
            row_byte(*zoom, phase as int, p / (stride as int), p % (stride as int))
        } else {
            old(buf)@[p]
        } by {
            let s = stride as int;
            lemma_fundamental_div_mod(p, s);
            if start <= p < start + 4 * zoom.width {
                lemma_fundamental_div_mod_converse(p, s, y as int, p - start);
            } else if p / s == y as int && p % s < 4 * zoom.width {
                assert(start as int == s * (y as int)) by (nonlinear_arith)
                    requires
                        start as int == (y as int) * s,
                ;
                assert(p == s * (y as int) + p % s);
                assert(false);
            }
        }
        y = y + 1;
    }
    assert(buf@ =~= rendered_frame(old(buf)@, *zoom, phase as int, stride as int));
}

/// Relies on rayon's `par_chunks_mut`, `take`, `enumerate` and `for_each`: the
/// buffer is cut into chunks of `stride` bytes, and the closure runs exactly
/// once on each of the first `height` chunks, with its index; it writes row
/// `y` into chunk `y` and leaves the rest of the chunk as it was.
#[verifier::external_body]
fn draw_rows_parallel(buf: &mut [u8], stride: usize, zoom: &Zoom, phase: u32)
    requires
        zoom.wf(),
        layout_fits(old(buf)@.len() as int, *zoom, stride as int),
    ensures
        final(buf)@ == rendered_frame(old(buf)@, *zoom, phase as int, stride as int),
{
    buf.par_chunks_mut(stride).take(zoom.height as usize).enumerate().for_each(
        |(y, row)| draw_row_rgba32(row, 0, zoom, y as u32, phase),
    );
}

/// Renders the whole view into `buf`, rows in parallel. Returns false, and
/// leaves the buffer untouched, when the layout does not fit the view.
pub fn draw_frame(buf: &mut [u8], stride: usize, zoom: &Zoom, phase: u32) -> (ok: bool)
    requires
        zoom.wf(),
    ensures
        ok == layout_fits(old(buf)@.len() as int, *zoom, stride as int),
        ok ==> final(buf)@ == rendered_frame(old(buf)@, *zoom, phase as int, stride as int),
        !ok ==> final(buf)@ == old(buf)@,
{
    let w: usize = zoom.width as usize;
    let h: usize = zoom.height as usize;
    if stride == 0 {
        return false;
    }
    let len = buf.len();
    let rows: usize = len / stride;
    proof {
        lemma_fundamental_div_mod(len as int, stride as int);
        lemma_fundamental_div_mod(stride as int, 4);
        assert(stride * h <= len <==> h <= rows) by (nonlinear_arith)
            requires
                stride > 0,
                len == stride * rows + (len as int) % (stride as int),
                0 <= (len as int) % (stride as int) < stride,
        ;
    }
    if stride / 4 < w || rows < h {
        return false;
    }
    draw_rows_parallel(buf, stride, zoom, phase);
    true
}

/// The buffer after writing row `y` alone.
pub open spec fn write_row(buf: Seq<u8>, v: Zoom, phase: int, stride: int, y: int) -> Seq<u8> {
    Seq::new(
        buf.len(),
        |p: int|
            if p / stride == y && p % stride < 4 * v.width {
                row_byte(v, phase, y, p % stride)
            } else {
                buf[p]
            },
    )
}

/// The buffer after writing the given rows, in the given order.
pub open spec fn write_rows(buf: Seq<u8>, v: Zoom, phase: int, stride: int, rows: Seq<int>) -> Seq<
    u8,
>
    decreases rows.len(),
{
    if rows.len() == 0 {
        buf
    } else {
        write_row(write_rows(buf, v, phase, stride, rows.drop_last()), v, phase, stride, rows.last())
    }
}

proof fn lemma_write_rows_bytes(buf: Seq<u8>, v: Zoom, phase: int, stride: int, rows: Seq<int>)
    ensures
        write_rows(buf, v, phase, stride, rows).len() == buf.len(),
        forall|p: int|
            0 <= p < buf.len() ==> #[trigger] write_rows(buf, v, phase, stride, rows)[p] == if rows.contains(
                p / stride,
            ) && p % stride < 4 * v.width {
                row_byte(v, phase, p / stride, p % stride)
            } else {
                buf[p]
            },
    decreases rows.len(),
{
    if rows.len() > 0 {
        let init = rows.drop_last();
        lemma_write_rows_bytes(buf, v, phase, stride, init);
        assert forall|p: int| 0 <= p < buf.len() implies #[trigger] write_rows(
            buf,
            v,
            phase,
            stride,
            rows,
        )[p] == if rows.contains(p / stride) && p % stride < 4 * v.width {
            row_byte(v, phase, p / stride, p % stride)
        } else {
            buf[p]
        } by {
            let y = p / stride;
            if rows.contains(y) && y != rows.last() {
                let k = choose|k: int| 0 <= k < rows.len() && rows[k] == y;
                assert(init[k] == y);
            }
            if init.contains(y) {
                let k = choose|k: int| 0 <= k < init.len() && init[k] == y;
                assert(rows[k] == y);
            }
            if y == rows.last() {
                assert(rows[rows.len() - 1] == y);
            }
        }
    }
}

/// Rows may be written in any order, any row any number of times: once every
/// row of the view has been written, the buffer is the rendered frame. So
/// rows rendered in parallel give the same bytes as rows rendered one after
/// the other.
pub proof fn lemma_row_order_irrelevant(
    buf: Seq<u8>,
    v: Zoom,
    phase: int,
    stride: int,
    rows: Seq<int>,
)
    requires
        stride > 0,
        forall|y: int| 0 <= y < v.height <==> rows.contains(y),
    ensures
        write_rows(buf, v, phase, stride, rows) == rendered_frame(buf, v, phase, stride),
{
    lemma_write_rows_bytes(buf, v, phase, stride, rows);
    assert forall|p: int| 0 <= p < buf.len() implies #[trigger] write_rows(
        buf,
        v,
        phase,
        stride,
        rows,
    )[p] == rendered_frame(buf, v, phase, stride)[p] by {
        lemma_fundamental_div_mod(p, stride);
        assert(p / stride >= 0) by (nonlinear_arith)
            requires
                p >= 0,
                stride > 0,
                p == stride * (p / stride) + p % stride,
                p % stride < stride,
        ;
        if 0 <= p / stride < v.height {
            assert(rows.contains(p / stride));
        }
    }
    assert(write_rows(buf, v, phase, stride, rows) =~= rendered_frame(buf, v, phase, stride));
}

/// Rendering is deterministic: the rendered bytes depend on the view and the
/// rotation step alone, whatever the buffer held before; so rendering a frame
/// again leaves it unchanged.
pub proof fn lemma_render_deterministic(a: Seq<u8>, b: Seq<u8>, v: Zoom, phase: int, stride: int)
    ensures
        rendered_frame(rendered_frame(a, v, phase, stride), v, phase, stride) == rendered_frame(
            a,
            v,
            phase,
            stride,
        ),
        forall|p: int|
            0 <= p < a.len() && 0 <= p < b.len() && p / stride < v.height && p % stride < 4
                * v.width ==> #[trigger] rendered_frame(a, v, phase, stride)[p] == rendered_frame(
                b,
                v,
                phase,
                stride,
            )[p],
{
    assert(rendered_frame(rendered_frame(a, v, phase, stride), v, phase, stride) =~= rendered_frame(
        a,
        v,
        phase,
        stride,
    ));
}

} // verus!
