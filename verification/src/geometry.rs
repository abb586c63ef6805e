//! Screen rectangles and the placement of applet popups under the bar.
use vstd::prelude::*;

verus! {

/// A rectangle in physical pixels.
#[derive(Clone, Copy, Debug, PartialEq, Eq, Default)]
pub struct Rect {
    pub x: i32,
    pub y: i32,
    pub w: i32,
    pub h: i32,
}

pub open spec fn min_int(a: int, b: int) -> int {
    if a <= b { a } else { b }
}

pub open spec fn clamp_int(v: int, lo: int, hi: int) -> int {
    if v < lo { lo } else if v > hi { hi } else { v }
}

/// Height left for a popup between the bar and the far monitor edge.
/// Half of `v`, rounded toward zero like integer division in Rust.
pub open spec fn half(v: int) -> int {
    if v >= 0 { v / 2 } else { -((-v) / 2) }
}

pub open spec fn popup_height(monitor: Rect, height: int, bar: int, gap: int) -> int {
    min_int(height, monitor.h - bar - 2 * gap)
}

pub open spec fn popup_width(monitor: Rect, width: int) -> int {
    min_int(width, monitor.w as int)
}

/// Where a popup of `size` opens: centered under logical `x` of the monitor,
/// kept inside the monitor, one gap away from a bar of height `bar`.
pub open spec fn spec_popup_rect(monitor: Rect, size: (i32, i32), bar: i32, gap: i32, x: i32, top: bool) -> (int, int, int, int) {
    let w = popup_width(monitor, size.0 as int);
    let h = popup_height(monitor, size.1 as int, bar as int, gap as int);
    let center = monitor.x + x;
    let left = clamp_int(center - half(w), monitor.x as int, monitor.x + monitor.w - w);
    let y = if top { monitor.y + bar + gap } else { monitor.y + monitor.h - bar - gap - h };
    (left, y, w, h)
}

/// The arithmetic of `spec_popup_rect` stays within `i32`.
pub open spec fn popup_rect_fits(monitor: Rect, size: (i32, i32), bar: i32, gap: i32, x: i32) -> bool {
    let w = popup_width(monitor, size.0 as int);
    let h = popup_height(monitor, size.1 as int, bar as int, gap as int);
    &&& i32::MIN <= monitor.h - bar <= i32::MAX
    &&& i32::MIN <= monitor.h - bar - gap <= i32::MAX
    &&& i32::MIN <= monitor.h - bar - 2 * gap <= i32::MAX
    &&& i32::MIN <= monitor.x + x <= i32::MAX
    &&& i32::MIN <= monitor.x + x - half(w) <= i32::MAX
    &&& i32::MIN <= monitor.x + monitor.w <= i32::MAX
    &&& i32::MIN <= monitor.x + monitor.w - w <= i32::MAX
    &&& i32::MIN <= monitor.y + bar <= i32::MAX
    &&& i32::MIN <= monitor.y + bar + gap <= i32::MAX
    &&& i32::MIN <= monitor.y + monitor.h <= i32::MAX
    &&& i32::MIN <= monitor.y + monitor.h - bar <= i32::MAX
    &&& i32::MIN <= monitor.y + monitor.h - bar - gap <= i32::MAX
    &&& i32::MIN <= monitor.y + monitor.h - bar - gap - h <= i32::MAX
}

/// Popup rectangle of an applet view: never wider or taller than the room the
/// monitor leaves, horizontally clamped to the monitor, next to the bar.
pub fn popup_rect(monitor: Rect, size: (i32, i32), bar: i32, gap: i32, x: i32, top: bool) -> (r: Rect)
    requires
        popup_rect_fits(monitor, size, bar, gap, x),
    ensures
        (r.x as int, r.y as int, r.w as int, r.h as int) == spec_popup_rect(monitor, size, bar, gap, x, top),
{
    let w = if size.0 <= monitor.w { size.0 } else { monitor.w };
    let room = monitor.h - bar - gap - gap;
    let h = if size.1 <= room { size.1 } else { room };
    let center = monitor.x + x;
    let lo = monitor.x;
    let hi = monitor.x + monitor.w - w;
    let want = center - w / 2;
    let left = if want < lo { lo } else if want > hi { hi } else { want };
    let y = if top { monitor.y + bar + gap } else { monitor.y + monitor.h - bar - gap - h };
    Rect { x: left, y, w, h }
}

/// A popup stays on its monitor and off the bar: it never crosses the
/// monitor's edges, and keeps one gap between itself and the bar.
pub proof fn popup_stays_on_monitor(monitor: Rect, size: (i32, i32), bar: i32, gap: i32, x: i32, top: bool)
    requires
        monitor.w >= 0,
        size.0 >= 0,
        size.1 >= 0,
        bar >= 0,
        gap >= 0,
        monitor.h - bar - 2 * gap >= 0,
    ensures
        ({
            let (left, y, w, h) = spec_popup_rect(monitor, size, bar, gap, x, top);
            &&& monitor.x <= left && left + w <= monitor.x + monitor.w
            &&& monitor.y <= y && y + h <= monitor.y + monitor.h
            &&& top ==> y == monitor.y + bar + gap
            &&& !top ==> y + h == monitor.y + monitor.h - bar - gap
        }),
{
}

/// `logical` pixels at `dpi` dots per inch, rounded to the nearest physical
/// pixel (96 dots per inch is one to one).
pub open spec fn spec_scaled(logical: int, dpi: int) -> int {
    let v = logical * dpi + 48;
    if v >= 0 { v / 96 } else { -((-v) / 96) }
}

/// Physical size of a logical length on a monitor of `dpi` dots per inch.
pub fn scaled(logical: i32, dpi: u32) -> (r: i32)
    requires
        i32::MIN <= spec_scaled(logical as int, dpi as int) <= i32::MAX,
        i64::MIN <= logical as int * dpi as int + 48 <= i64::MAX,
    ensures
        r as int == spec_scaled(logical as int, dpi as int),
{
    let v: i64 = logical as i64 * dpi as i64 + 48;
    (v / 96) as i32
}

/// The bar of a monitor: its full width, `height` tall, along the top edge
/// or the bottom one.
pub fn bar_rect(monitor: Rect, height: i32, top: bool) -> (r: Rect)
    requires
        i32::MIN <= monitor.y + monitor.h - height <= i32::MAX,
        i32::MIN <= monitor.y + monitor.h <= i32::MAX,
    ensures
        r.x == monitor.x,
        r.w == monitor.w,
        r.h == height,
        r.y == (if top { monitor.y as int } else { monitor.y + monitor.h - height }),
{
    let y = if top { monitor.y } else { monitor.y + monitor.h - height };
    Rect { x: monitor.x, y, w: monitor.w, h: height }
}

/// A window of at most `width` by `height` centered in `area`.
pub fn centered(area: Rect, width: i32, height: i32) -> (r: Rect)
    requires
        area.w >= 0,
        area.h >= 0,
        width >= 0,
        height >= 0,
        area.x + area.w <= i32::MAX,
        area.y + area.h <= i32::MAX,
    ensures
        r.w == min_int(width as int, area.w as int),
        r.h == min_int(height as int, area.h as int),
        r.x == area.x + (area.w - r.w) / 2,
        r.y == area.y + (area.h - r.h) / 2,
{
    let w = if width <= area.w { width } else { area.w };
    let h = if height <= area.h { height } else { area.h };
    Rect { x: area.x + (area.w - w) / 2, y: area.y + (area.h - h) / 2, w, h }
}

/// The tiling area of a monitor: all of it, less the bar when one is shown
/// (`bar` gives its height and whether it runs along the top).
pub fn work_area(monitor: Rect, bar: Option<(i32, bool)>) -> (r: Rect)
    requires
        bar matches Some((height, _)) ==> i32::MIN <= monitor.h - height <= i32::MAX && i32::MIN <= monitor.y + height <= i32::MAX,
    ensures
        r.x == monitor.x,
        r.w == monitor.w,
        match bar {
            Some((height, top)) => r.h == monitor.h - height && r.y == (if top { monitor.y + height } else { monitor.y as int }),
            None => r == monitor,
        },
{
    match bar {
        Some((height, top)) => Rect {
            x: monitor.x,
            y: if top { monitor.y + height } else { monitor.y },
            w: monitor.w,
            h: monitor.h - height,
        },
        None => monitor,
    }
}

/// A rectangle by its edges, as Windows reports window bounds.
#[derive(Clone, Copy, Debug, PartialEq, Eq, Default)]
pub struct Edges {
    pub left: i32,
    pub top: i32,
    pub right: i32,
    pub bottom: i32,
}

/// An invisible border width, kept within 0 to 64 pixels.
pub open spec fn border(v: int) -> int {
    if v < 0 { 0 } else if v > 64 { 64 } else { v }
}

fn clamp_border(v: i32) -> (r: i32)
    ensures
        r == border(v as int),
{
    if v < 0 { 0 } else if v > 64 { 64 } else { v }
}

/// The window rectangle whose visible frame lands on `target`, for a window
/// whose visible frame is `frame` inside its full bounds `window`: Windows
/// 10 and 11 windows carry invisible resize borders that the full bounds
/// include and the eye does not.
pub fn framed(target: Rect, frame: Edges, window: Edges) -> (r: Rect)
    requires
        i32::MIN <= frame.left - window.left <= i32::MAX,
        i32::MIN <= frame.top - window.top <= i32::MAX,
        i32::MIN <= window.right - frame.right <= i32::MAX,
        i32::MIN <= window.bottom - frame.bottom <= i32::MAX,
        i32::MIN <= target.x - 64,
        i32::MIN <= target.y - 64,
        target.w + 128 <= i32::MAX,
        target.h + 128 <= i32::MAX,
    ensures
        ({
            let left = border(frame.left - window.left);
            let top = border(frame.top - window.top);
            let right = border(window.right - frame.right);
            let bottom = border(window.bottom - frame.bottom);
            &&& r.x == target.x - left
            &&& r.y == target.y - top
            &&& r.w == target.w + left + right
            &&& r.h == target.h + top + bottom
        }),
{
    let left = clamp_border(frame.left - window.left);
    let top = clamp_border(frame.top - window.top);
    let right = clamp_border(window.right - frame.right);
    let bottom = clamp_border(window.bottom - frame.bottom);
    Rect { x: target.x - left, y: target.y - top, w: target.w + left + right, h: target.h + top + bottom }
}

} // verus!

