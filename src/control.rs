//! The decisions of the interactive loop: which command a key stands for,
//! what a command does to the viewport, the render size of a frame, frame
//! pacing and the advance of the palette rotation.
use vstd::prelude::*;
use crate::fixed::TWO;
use crate::palette::PHASE_STEPS;
use crate::viewport::{Zoom, MIN_SETTING, lemma_side_range};

verus! {

/// The keys that the viewer knows, independent of any windowing library.
#[derive(Clone, Copy, Debug, PartialEq, Eq, Structural)]
pub enum Key {
    Escape,
    Q,
    Up,
    Down,
    Left,
    Right,
    Kp8,
    Kp2,
    Kp4,
    Kp6,
    KpPlus,
    KpMinus,
    PageUp,
    PageDown,
    Kp9,
    Kp3,
    Period,
    Comma,
    Equals,
    Other,
}

/// An input event.
#[derive(Clone, Copy, Debug, PartialEq, Eq, Structural)]
pub enum Event {
    /// The window was closed.
    Quit,
    /// A key went down; `ctrl` tells whether Control was held, `repeat`
    /// whether this is an auto-repeat of a held key.
    KeyDown { key: Key, ctrl: bool, repeat: bool },
    /// Anything else.
    Other,
}

/// What the loop does for an event.
#[derive(Clone, Copy, Debug, PartialEq, Eq, Structural)]
pub enum Command {
    Quit,
    PanUp,
    PanDown,
    PanLeft,
    PanRight,
    ZoomIn,
    ZoomOut,
    MoreIter,
    LessIter,
    Sharpen,
    Coarsen,
    /// Report the viewport's state.
    Print,
    /// A key without a binding: reported and otherwise ignored.
    Unbound,
    /// Nothing to do.
    Nothing,
}

/// Change of the iteration bound per key press.
pub const ITER_STEP: u64 = 25;

/// The key bindings.
pub open spec fn key_command(key: Key, ctrl: bool) -> Command {
    match key {
        Key::Escape => Command::Quit,
        Key::Q => if ctrl {
            Command::Quit
        } else {
            Command::Unbound
        },
        Key::Up | Key::Kp8 => Command::PanUp,
        Key::Down | Key::Kp2 => Command::PanDown,
        Key::Left | Key::Kp4 => Command::PanLeft,
        Key::Right | Key::Kp6 => Command::PanRight,
        Key::KpPlus => Command::ZoomIn,
        Key::KpMinus => Command::ZoomOut,
        Key::PageUp | Key::Kp9 => Command::MoreIter,
        Key::PageDown | Key::Kp3 => Command::LessIter,
        Key::Period => Command::Sharpen,
        Key::Comma => Command::Coarsen,
        Key::Equals => Command::Print,
        Key::Other => Command::Unbound,
    }
}

/// The command for an event: key repeats and other events do nothing.
pub open spec fn event_command(e: Event) -> Command {
    match e {
        Event::Quit => Command::Quit,
        Event::KeyDown { key, ctrl, repeat } => if repeat {
            Command::Nothing
        } else {
            key_command(key, ctrl)
        },
        Event::Other => Command::Nothing,
    }
}

/// The viewport after a command.
pub open spec fn apply_spec(z: Zoom, c: Command) -> Zoom {
    match c {
        Command::PanUp => z.up_spec(),
        Command::PanDown => z.down_spec(),
        Command::PanLeft => z.left_spec(),
        Command::PanRight => z.right_spec(),
        Command::ZoomIn => z.zoom_in_spec(),
        Command::ZoomOut => z.zoom_out_spec(),
        Command::MoreIter => z.more_iter_spec(ITER_STEP),
        Command::LessIter => z.less_iter_spec(ITER_STEP),
        Command::Sharpen => z.more_resolution_spec(),
        Command::Coarsen => z.less_resolution_spec(),
        _ => z,
    }
}

/// The viewport after a sequence of commands, in order.
pub open spec fn apply_all(z: Zoom, cs: Seq<Command>) -> Zoom
    decreases cs.len(),
{
    if cs.len() == 0 {
        z
    } else {
        apply_spec(apply_all(z, cs.drop_last()), cs.last())
    }
}

/// The command bound to a key.
pub fn command_for_key(key: Key, ctrl: bool) -> (c: Command)
    ensures
        c == key_command(key, ctrl),
{
    match key {
        Key::Escape => Command::Quit,
        Key::Q => if ctrl {
            Command::Quit
        } else {
            Command::Unbound
        },
        Key::Up | Key::Kp8 => Command::PanUp,
        Key::Down | Key::Kp2 => Command::PanDown,
        Key::Left | Key::Kp4 => Command::PanLeft,
        Key::Right | Key::Kp6 => Command::PanRight,
        Key::KpPlus => Command::ZoomIn,
        Key::KpMinus => Command::ZoomOut,
        Key::PageUp | Key::Kp9 => Command::MoreIter,
        Key::PageDown | Key::Kp3 => Command::LessIter,
        Key::Period => Command::Sharpen,
        Key::Comma => Command::Coarsen,
        Key::Equals => Command::Print,
        Key::Other => Command::Unbound,
    }
}

/// The command for an event.
pub fn command_for_event(e: Event) -> (c: Command)
    ensures
        c == event_command(e),
{
    match e {
        Event::Quit => Command::Quit,
        Event::KeyDown { key, ctrl, repeat } => if repeat {
            Command::Nothing
        } else {
            command_for_key(key, ctrl)
        },
        Event::Other => Command::Nothing,
    }
}

/// Applies a command to the viewport; commands that do not move the camera
/// leave it as it is.
pub fn apply_command(zoom: &mut Zoom, c: Command)
    requires
        old(zoom).wf(),
    ensures
        *final(zoom) == apply_spec(*old(zoom), c),
        final(zoom).wf(),
{
    match c {
        Command::PanUp => zoom.up(),
        Command::PanDown => zoom.down(),
        Command::PanLeft => zoom.left(),
        Command::PanRight => zoom.right(),
        Command::ZoomIn => zoom.zoom_in(),
        Command::ZoomOut => zoom.zoom_out(),
        Command::MoreIter => zoom.more_iter(ITER_STEP),
        Command::LessIter => zoom.less_iter(ITER_STEP),
        Command::Sharpen => zoom.more_resolution(),
        Command::Coarsen => zoom.less_resolution(),
        _ => {},
    }
}

/// Every command keeps the viewport well formed.
pub proof fn lemma_apply_wf(z: Zoom, c: Command)
    requires
        z.wf(),
    ensures
        apply_spec(z, c).wf(),
{
    lemma_side_range(z.zoom as int);
    let (cx, cy) = (z.center_x as int, z.center_y as int);
    let (w, h) = (z.width, z.height);
    match c {
        Command::PanUp => z.lemma_placed_wf(cx, apply_spec(z, c).center_y as int, z.zoom, w, h),
        Command::PanDown => z.lemma_placed_wf(cx, apply_spec(z, c).center_y as int, z.zoom, w, h),
        Command::PanLeft => z.lemma_placed_wf(apply_spec(z, c).center_x as int, cy, z.zoom, w, h),
        Command::PanRight => z.lemma_placed_wf(apply_spec(z, c).center_x as int, cy, z.zoom, w, h),
        Command::ZoomIn => z.lemma_placed_wf(cx, cy, apply_spec(z, c).zoom, w, h),
        Command::ZoomOut => z.lemma_placed_wf(cx, cy, apply_spec(z, c).zoom, w, h),
        _ => {},
    }
}

/// Whatever commands arrive, in whatever order, the viewport's centre stays
/// in the square `[-2, 2] x [-2, 2]`, the zoom level stays at 0 or above, and
/// the iteration bound and the resolution divisor stay at 2 or above.
pub proof fn lemma_viewport_bounds(z: Zoom, cs: Seq<Command>)
    requires
        z.wf(),
    ensures
        apply_all(z, cs).wf(),
        -TWO <= apply_all(z, cs).center_x <= TWO,
        -TWO <= apply_all(z, cs).center_y <= TWO,
        apply_all(z, cs).zoom >= 0,
        apply_all(z, cs).max_iter >= MIN_SETTING,
        apply_all(z, cs).resolution >= MIN_SETTING,
    decreases cs.len(),
{
    if cs.len() > 0 {
        lemma_viewport_bounds(z, cs.drop_last());
        lemma_apply_wf(apply_all(z, cs.drop_last()), cs.last());
    }
}

/// The render size for a canvas of `size` pixels: each side divided by the
/// resolution divisor.
pub open spec fn frame_size_spec(size: (u32, u32), resolution: u32) -> (u32, u32) {
    ((size.0 / resolution) as u32, (size.1 / resolution) as u32)
}

/// Sizes the viewport for a frame on a canvas of `size` pixels and returns
/// the render size.
pub fn prepare_frame(zoom: &mut Zoom, size: (u32, u32)) -> (r: (u32, u32))
    requires
        old(zoom).wf(),
    ensures
        r == frame_size_spec(size, old(zoom).resolution),
        *final(zoom) == old(zoom).set_size_spec(r.0, r.1),
        final(zoom).wf(),
{
    let r = (size.0 / zoom.resolution, size.1 / zoom.resolution);
    zoom.set_size(r);
    r
}

/// What the loop does after presenting a frame: sleep `sleep`, move the
/// pacing anchor to `tick`, and count `elapsed` as the frame's duration. All
/// times are in nanoseconds of a monotonic clock.
#[derive(Clone, Copy, Debug, PartialEq, Eq, Structural)]
pub struct Pace {
    pub sleep: u64,
    pub tick: u64,
    pub elapsed: u64,
}

/// Fixed-cadence pacing: a frame under budget sleeps out the rest of the
/// period and the anchor advances by exactly one period; a frame over budget
/// does not sleep and the anchor moves to now.
pub open spec fn pace_spec(tick: u64, now: u64, period: u64) -> Pace {
    let elapsed = if now >= tick {
        now - tick
    } else {
        0
    };
    if elapsed < period {
        Pace {
            sleep: (period - elapsed) as u64,
            tick: if tick + period <= u64::MAX {
                (tick + period) as u64
            } else {
                u64::MAX
            },
            elapsed: period,
        }
    } else {
        Pace { sleep: 0, tick: now, elapsed: elapsed as u64 }
    }
}

/// The pacing decision for a frame that ended at `now`.
pub fn pace(tick: u64, now: u64, period: u64) -> (p: Pace)
    ensures
        p == pace_spec(tick, now, period),
{
    let elapsed = now.saturating_sub(tick);
    if elapsed < period {
        Pace { sleep: period - elapsed, tick: tick.saturating_add(period), elapsed: period }
    } else {
        Pace { sleep: 0, tick: now, elapsed }
    }
}

/// Rotation steps that a frame of duration `elapsed` advances the palette:
/// two per period, rounded to the nearest step, halves up.
pub open spec fn phase_steps(elapsed: int, period: int) -> int {
    (4 * elapsed + period) / (2 * period)
}

/// The rotation step after a frame of duration `elapsed`.
pub open spec fn next_phase_spec(phase: int, elapsed: int, period: int) -> int {
    (phase + phase_steps(elapsed, period)) % (PHASE_STEPS as int)
}

/// Advances the palette rotation after a frame of duration `elapsed`.
pub fn next_phase(phase: u32, elapsed: u64, period: u64) -> (r: u32)
    requires
        period > 0,
    ensures
        r == next_phase_spec(phase as int, elapsed as int, period as int),
        r < PHASE_STEPS,
{
    let steps: u128 = (4 * (elapsed as u128) + (period as u128)) / (2 * (period as u128));
    let k: u128 = (phase as u128) % (PHASE_STEPS as u128) + steps % (PHASE_STEPS as u128);
    proof {
        let n = PHASE_STEPS as int;
        vstd::arithmetic::div_mod::lemma_add_mod_noop(phase as int, steps as int, n);
    }
    (k % (PHASE_STEPS as u128)) as u32
}

} // verus!
