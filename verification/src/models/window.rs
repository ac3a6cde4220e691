//! Window geometry: where a snapped window goes, the border drawn around the focused
//! window, and which windows are managed at all.
use vstd::prelude::*;

use crate::models::monitor::Rect;

verus! {

/// How far the visible frame of a window lies inside its outer rect on each side (the
/// invisible resize borders and shadow).
#[derive(Debug, Clone, Copy, PartialEq, Eq, Structural)]
pub struct FrameOffsets {
    pub left: i32,
    pub top: i32,
    pub right: i32,
    pub bottom: i32,
}

/// Whether `x` fits in an `i32`.
pub open spec fn fits_i32(x: int) -> bool {
    i32::MIN <= x <= i32::MAX
}

fn diff_fits(a: i32, b: i32) -> (ok: bool)
    ensures
        ok == fits_i32(a - b),
{
    let d = a as i64 - b as i64;
    d >= i32::MIN as i64 && d <= i32::MAX as i64
}

fn sum_fits(a: i32, b: i32) -> (ok: bool)
    ensures
        ok == fits_i32(a + b),
{
    let d = a as i64 + b as i64;
    d >= i32::MIN as i64 && d <= i32::MAX as i64
}

/// The offsets between a window's visible `frame` and its outer rect `total`; `None`
/// when one of them does not fit in an `i32`.
pub fn frame_offsets(frame: Rect, total: Rect) -> (off: Option<FrameOffsets>)
    ensures
        match off {
            Some(o) => {
                &&& o.left == frame.left - total.left
                &&& o.top == frame.top - total.top
                &&& o.right == total.right - frame.right
                &&& o.bottom == total.bottom - frame.bottom
            },
            None => !(fits_i32(frame.left - total.left) && fits_i32(frame.top - total.top) && fits_i32(
                total.right - frame.right,
            ) && fits_i32(total.bottom - frame.bottom)),
        },
{
    if diff_fits(frame.left, total.left) && diff_fits(frame.top, total.top) && diff_fits(total.right, frame.right)
        && diff_fits(total.bottom, frame.bottom) {
        Some(
            FrameOffsets {
                left: frame.left - total.left,
                top: frame.top - total.top,
                right: total.right - frame.right,
                bottom: total.bottom - frame.bottom,
            },
        )
    } else {
        None
    }
}

/// The outer position and size (`x`, `y`, width, height) that puts a window with frame
/// offsets `off` so that its visible frame fills `zone` less `gap` on every side.
pub open spec fn spec_snap_placement(zone: Rect, off: FrameOffsets, gap: i32) -> (int, int, int, int) {
    (
        zone.left + gap - off.left,
        zone.top + gap - off.top,
        zone.right - zone.left - 2 * gap + off.left + off.right,
        zone.bottom - zone.top - 2 * gap + off.top + off.bottom,
    )
}

/// Whether every step of working out the placement fits in an `i32`.
pub open spec fn snap_placement_fits(zone: Rect, off: FrameOffsets, gap: i32) -> bool {
    let p = spec_snap_placement(zone, off, gap);
    &&& i32::MIN <= zone.left + gap <= i32::MAX
    &&& i32::MIN <= p.0 <= i32::MAX
    &&& i32::MIN <= zone.top + gap <= i32::MAX
    &&& i32::MIN <= p.1 <= i32::MAX
    &&& i32::MIN <= zone.right - zone.left <= i32::MAX
    &&& i32::MIN <= 2 * gap <= i32::MAX
    &&& i32::MIN <= zone.right - zone.left - 2 * gap <= i32::MAX
    &&& i32::MIN <= zone.right - zone.left - 2 * gap + off.left <= i32::MAX
    &&& i32::MIN <= p.2 <= i32::MAX
    &&& i32::MIN <= zone.bottom - zone.top <= i32::MAX
    &&& i32::MIN <= zone.bottom - zone.top - 2 * gap <= i32::MAX
    &&& i32::MIN <= zone.bottom - zone.top - 2 * gap + off.top <= i32::MAX
    &&& i32::MIN <= p.3 <= i32::MAX
}

/// The outer position and size (`x`, `y`, width, height) that puts a window with frame
/// offsets `off` so that its visible frame fills `zone` less `gap` on every side; `None`
/// when a step of working it out does not fit in an `i32`.
pub fn snap_placement(zone: Rect, off: FrameOffsets, gap: i32) -> (p: Option<(i32, i32, i32, i32)>)
    ensures
        match p {
            Some(q) => snap_placement_fits(zone, off, gap) && (q.0 as int, q.1 as int, q.2 as int, q.3 as int)
                == spec_snap_placement(zone, off, gap),
            None => !snap_placement_fits(zone, off, gap),
        },
{
    if !sum_fits(zone.left, gap) {
        return None;
    }
    let l = zone.left + gap;
    if !diff_fits(l, off.left) || !sum_fits(zone.top, gap) {
        return None;
    }
    let t = zone.top + gap;
    if !diff_fits(t, off.top) || !diff_fits(zone.right, zone.left) || !sum_fits(gap, gap) {
        return None;
    }
    let w0 = zone.right - zone.left;
    let g2 = gap + gap;
    if !diff_fits(w0, g2) {
        return None;
    }
    let w1 = w0 - g2;
    if !sum_fits(w1, off.left) {
        return None;
    }
    let w2 = w1 + off.left;
    if !sum_fits(w2, off.right) || !diff_fits(zone.bottom, zone.top) {
        return None;
    }
    let h0 = zone.bottom - zone.top;
    if !diff_fits(h0, g2) {
        return None;
    }
    let h1 = h0 - g2;
    if !sum_fits(h1, off.top) {
        return None;
    }
    let h2 = h1 + off.top;
    if !sum_fits(h2, off.bottom) {
        return None;
    }
    Some((l - off.left, t - off.top, w2 + off.right, h2 + off.bottom))
}

/// Width of the border drawn around the focused window.
pub const FOCUS_BORDER_WIDTH: i32 = 2;

/// The rect of the border drawn around a window whose visible rect is `r`: `r` grown by
/// `FOCUS_BORDER_WIDTH` on every side; `None` when that leaves the `i32` range.
pub fn border_rect(r: Rect) -> (b: Option<Rect>)
    ensures
        match b {
            Some(b) => b == (Rect {
                left: (r.left - FOCUS_BORDER_WIDTH) as i32,
                top: (r.top - FOCUS_BORDER_WIDTH) as i32,
                right: (r.right + FOCUS_BORDER_WIDTH) as i32,
                bottom: (r.bottom + FOCUS_BORDER_WIDTH) as i32,
            }) && fits_i32(r.left - FOCUS_BORDER_WIDTH) && fits_i32(r.top - FOCUS_BORDER_WIDTH)
                && fits_i32(r.right + FOCUS_BORDER_WIDTH) && fits_i32(r.bottom + FOCUS_BORDER_WIDTH),
            None => !(fits_i32(r.left - FOCUS_BORDER_WIDTH) && fits_i32(r.top - FOCUS_BORDER_WIDTH) && fits_i32(
                r.right + FOCUS_BORDER_WIDTH,
            ) && fits_i32(r.bottom + FOCUS_BORDER_WIDTH)),
        },
{
    let p = FOCUS_BORDER_WIDTH;
    if diff_fits(r.left, p) && diff_fits(r.top, p) && sum_fits(r.right, p) && sum_fits(r.bottom, p) {
        Some(Rect { left: r.left - p, top: r.top - p, right: r.right + p, bottom: r.bottom + p })
    } else {
        None
    }
}

/// Least width and height a window must have to be managed.
pub const MIN_DIMENSION: i32 = 50;

/// The extended-style bit of a tool window, which is never managed.
pub const WS_EX_TOOLWINDOW: u32 = 0x0000_0080;

/// Whether a window is managed: visible, not minimised, no tool window, with a title and
/// a known rect at least `MIN_DIMENSION` wide and high.
pub open spec fn spec_manageable(visible: bool, iconic: bool, ex_style: u32, has_title: bool, rect: Option<Rect>) -> bool {
    &&& visible
    &&& !iconic
    &&& ex_style & WS_EX_TOOLWINDOW == 0
    &&& has_title
    &&& rect matches Some(r) && r.spec_width() >= MIN_DIMENSION && r.spec_height() >= MIN_DIMENSION
}

/// Whether a window is managed, from what the system tells of it: whether it is visible
/// and minimised, its extended style, whether it has a title, and its rect if known.
/// `None` when the extents of that rect do not fit in an `i32`.
pub fn is_manageable(visible: bool, iconic: bool, ex_style: u32, has_title: bool, rect: Option<Rect>) -> (b: Option<bool>)
    ensures
        match b {
            Some(m) => m == spec_manageable(visible, iconic, ex_style, has_title, rect),
            None => visible && !iconic && ex_style & WS_EX_TOOLWINDOW == 0 && has_title
                && (rect matches Some(r) && !r.extents_fit()),
        },
{
    if !visible || iconic {
        return Some(false);
    }
    if ex_style & WS_EX_TOOLWINDOW != 0 {
        return Some(false);
    }
    if !has_title {
        return Some(false);
    }
    match rect {
        Some(r) => {
            if diff_fits(r.right, r.left) && diff_fits(r.bottom, r.top) {
                Some(r.width() >= MIN_DIMENSION && r.height() >= MIN_DIMENSION)
            } else {
                None
            }
        },
        None => Some(false),
    }
}

} // verus!
