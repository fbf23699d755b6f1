//! Where the floating widget goes: laid over the Windows taskbar, in the
//! lower right corner of a Linux screen, moved by dragging, and the saved
//! horizontal position that survives restarts.
use vstd::prelude::*;

use crate::text::{
    CharClass, chars_of, decimal, int_chars, int_text, is_digit, lemma_decimal_shape,
    lemma_decimal_value, lemma_strip_end_at, lemma_strip_start_at, parse_i32, parse_i32_chars,
    string_of, strip, strip_chars, unsigned_part, all_digits, digits_value,
};

verus! {

/// A window rectangle in screen coordinates.
#[derive(Clone, Copy, PartialEq, Eq, Debug)]
pub struct ScreenRect {
    pub left: i32,
    pub top: i32,
    pub right: i32,
    pub bottom: i32,
}

pub open spec fn fits_i32(x: int) -> bool {
    i32::MIN <= x && x <= i32::MAX
}

/// `x.clamp(lo, hi)` for `lo <= hi`.
pub open spec fn clamp(x: int, lo: int, hi: int) -> int {
    if x < lo {
        lo
    } else if x > hi {
        hi
    } else {
        x
    }
}

pub open spec fn max_int(a: int, b: int) -> int {
    if a >= b {
        a
    } else {
        b
    }
}

/// Integer division by two, rounding toward zero as `/` does on `i32`.
pub open spec fn half_toward_zero(a: int) -> int {
    if a >= 0 {
        a / 2
    } else {
        -((-a) / 2)
    }
}

fn clamp_i32(x: i32, lo: i32, hi: i32) -> (r: i32)
    requires
        lo <= hi,
    ensures
        r == clamp(x as int, lo as int, hi as int),
{
    if x < lo {
        lo
    } else if x > hi {
        hi
    } else {
        x
    }
}

fn half(a: i32) -> (r: i32)
    ensures
        r == half_toward_zero(a as int),
{
    a / 2
}

// ---------------------------------------------------------------------------
// Windows: over the taskbar
// ---------------------------------------------------------------------------

/// The widget's size as signed numbers (`as i32`), or 132 by 44 where the
/// size could not be read.
pub open spec fn widget_extent(size: Option<(u32, u32)>) -> (int, int) {
    match size {
        Some(s) => ((s.0 as i32) as int, (s.1 as i32) as int),
        None => (132, 44),
    }
}

/// Where the widget goes without a saved position: its right edge two
/// pixels left of the notification area, or 200 pixels in from the
/// taskbar's right end where that area was not found.
pub open spec fn taskbar_default_x(taskbar: ScreenRect, tray: Option<ScreenRect>, w: int) -> int {
    match tray {
        Some(tr) => tr.left - w - 2,
        None => taskbar.right - w - 200,
    }
}

/// The rightmost x that keeps the widget on the taskbar (never left of it).
pub open spec fn taskbar_max_x(taskbar: ScreenRect, w: int) -> int {
    max_int(taskbar.right - w, taskbar.left as int)
}

/// The widget's x: the saved x where there is one, else the default,
/// kept within the taskbar's horizontal range.
pub open spec fn taskbar_x(
    size: Option<(u32, u32)>,
    taskbar: ScreenRect,
    tray: Option<ScreenRect>,
    saved_x: Option<i32>,
) -> int {
    let w = widget_extent(size).0;
    let lo = taskbar.left as int;
    let hi = taskbar_max_x(taskbar, w);
    let chosen = match saved_x {
        Some(sx) => clamp(sx as int, lo, hi),
        None => taskbar_default_x(taskbar, tray, w),
    };
    clamp(chosen, lo, hi)
}

/// The widget's y: centred vertically on the taskbar.
pub open spec fn taskbar_y(size: Option<(u32, u32)>, taskbar: ScreenRect) -> int {
    taskbar.top + half_toward_zero(taskbar.bottom - taskbar.top - widget_extent(size).1)
}

/// Every intermediate value of the placement fits in `i32`.
pub open spec fn taskbar_arithmetic_fits(
    size: Option<(u32, u32)>,
    taskbar: ScreenRect,
    tray: Option<ScreenRect>,
) -> bool {
    let (w, h) = widget_extent(size);
    &&& match tray {
        Some(tr) => fits_i32(tr.left - w) && fits_i32(tr.left - w - 2),
        None => fits_i32(taskbar.right - w) && fits_i32(taskbar.right - w - 200),
    }
    &&& fits_i32(taskbar.right - w)
    &&& fits_i32(taskbar.bottom - taskbar.top)
    &&& fits_i32(taskbar.bottom - taskbar.top - h)
    &&& fits_i32(taskbar.top + half_toward_zero(taskbar.bottom - taskbar.top - h))
}

/// The screen position of the widget laid over the Windows taskbar, given
/// the widget's size (`None` where it could not be read), the taskbar's
/// rectangle, the notification area's rectangle (`None` where it was not
/// found) and the saved x (`None` where there is none).
pub fn taskbar_position(
    window_size: Option<(u32, u32)>,
    taskbar: ScreenRect,
    tray: Option<ScreenRect>,
    saved_x: Option<i32>,
) -> (p: (i32, i32))
    requires
        taskbar_arithmetic_fits(window_size, taskbar, tray),
    ensures
        p.0 == taskbar_x(window_size, taskbar, tray, saved_x),
        p.1 == taskbar_y(window_size, taskbar),
        taskbar.left <= p.0 <= taskbar_max_x(taskbar, widget_extent(window_size).0),
{
    let (w, h) = match window_size {
        Some(s) => (s.0 as i32, s.1 as i32),
        None => (132, 44),
    };
    let default_x = match tray {
        Some(tr) => tr.left - w - 2,
        None => taskbar.right - w - 200,
    };
    let min_x = taskbar.left;
    let right_limit = taskbar.right - w;
    let max_x = if right_limit >= taskbar.left {
        right_limit
    } else {
        taskbar.left
    };
    let chosen = match saved_x {
        Some(sx) => clamp_i32(sx, min_x, max_x),
        None => default_x,
    };
    let x = clamp_i32(chosen, min_x, max_x);
    let y = taskbar.top + half(taskbar.bottom - taskbar.top - h);
    (x, y)
}

/// A saved x that lies on the taskbar is where the widget goes.
pub proof fn saved_x_on_taskbar_is_kept(
    size: Option<(u32, u32)>,
    taskbar: ScreenRect,
    tray: Option<ScreenRect>,
    sx: i32,
)
    requires
        taskbar.left <= sx <= taskbar_max_x(taskbar, widget_extent(size).0),
    ensures
        taskbar_x(size, taskbar, tray, Some(sx)) == sx,
{
}

/// Without a saved x and with the notification area found, the widget's
/// right edge (at its actual width) lies two pixels left of that area,
/// wherever that keeps it on the taskbar.
pub proof fn taskbar_widget_ends_left_of_tray(
    w: u32,
    h: u32,
    taskbar: ScreenRect,
    tray: ScreenRect,
)
    requires
        w <= i32::MAX,
        taskbar.left <= tray.left - w - 2 <= taskbar.right - w,
    ensures
        taskbar_x(Some((w, h)), taskbar, Some(tray), None) + w == tray.left - 2,
{
    assert((w as i32) as int == w as int);
}

/// Without a saved x and without the notification area, the widget's right
/// edge lies 200 pixels in from the taskbar's right end, wherever that keeps
/// it on the taskbar.
pub proof fn taskbar_widget_ends_before_taskbar_end(w: u32, h: u32, taskbar: ScreenRect)
    requires
        w <= i32::MAX,
        taskbar.left <= taskbar.right - w - 200,
    ensures
        taskbar_x(Some((w, h)), taskbar, None, None) + w == taskbar.right - 200,
{
    assert((w as i32) as int == w as int);
}

/// A widget no taller than the taskbar is centred on it: the gaps above
/// and below it differ by at most one pixel.
pub proof fn taskbar_widget_is_centred(w: u32, h: u32, taskbar: ScreenRect)
    requires
        h <= i32::MAX,
        h <= taskbar.bottom - taskbar.top,
    ensures
        ({
            let y = taskbar_y(Some((w, h)), taskbar);
            let above = y - taskbar.top;
            let below = taskbar.bottom - (y + h);
            0 <= above <= below <= above + 1
        }),
{
    assert((h as i32) as int == h as int);
}

// ---------------------------------------------------------------------------
// Linux: lower right corner
// ---------------------------------------------------------------------------

/// The widget's size as signed numbers, or 82 by 36 where it could not be read.
pub open spec fn linux_widget_extent(size: Option<(u32, u32)>) -> (int, int) {
    match size {
        Some(s) => ((s.0 as i32) as int, (s.1 as i32) as int),
        None => (82, 36),
    }
}

/// The rightmost x that keeps the widget on the screen (never below 0).
pub open spec fn linux_max_x(screen: (u32, u32), size: Option<(u32, u32)>) -> int {
    max_int((screen.0 as i32) - linux_widget_extent(size).0, 0)
}

/// The widget's x on a Linux screen.
pub open spec fn linux_x(
    screen: (u32, u32),
    size: Option<(u32, u32)>,
    margin: i32,
    saved_x: Option<i32>,
) -> int {
    match saved_x {
        Some(sx) => clamp(sx as int, 0, linux_max_x(screen, size)),
        None => linux_max_x(screen, size) - margin,
    }
}

/// The widget's y on a Linux screen.
pub open spec fn linux_y(screen: (u32, u32), size: Option<(u32, u32)>, panel: i32) -> int {
    max_int((screen.1 as i32) - linux_widget_extent(size).1 - panel, 0)
}

/// Every intermediate value of the Linux placement fits in `i32`.
pub open spec fn linux_arithmetic_fits(
    screen: (u32, u32),
    size: Option<(u32, u32)>,
    margin: i32,
    panel: i32,
) -> bool {
    let (w, h) = linux_widget_extent(size);
    &&& fits_i32((screen.0 as i32) - w)
    &&& fits_i32(linux_max_x(screen, size) - margin)
    &&& fits_i32((screen.1 as i32) - h)
    &&& fits_i32((screen.1 as i32) - h - panel)
}

/// The widget's position on a Linux screen of the given size: the saved x
/// kept on the screen where there is one, else `margin` pixels in from the
/// right edge; `panel` pixels above the bottom edge, never above the top.
/// (`margin` and `panel` are 8 and 40 logical pixels at the screen's scale.)
pub fn linux_widget_position(
    screen: (u32, u32),
    widget_size: Option<(u32, u32)>,
    margin: i32,
    panel: i32,
    saved_x: Option<i32>,
) -> (p: (i32, i32))
    requires
        linux_arithmetic_fits(screen, widget_size, margin, panel),
    ensures
        p.0 == (match saved_x {
            Some(sx) => clamp(sx as int, 0, linux_max_x(screen, widget_size)),
            None => linux_max_x(screen, widget_size) - margin,
        }),
        p.1 == max_int((screen.1 as i32) - linux_widget_extent(widget_size).1 - panel, 0),
        p.0 == linux_x(screen, widget_size, margin, saved_x),
        p.1 == linux_y(screen, widget_size, panel),
{
    let (ww, wh) = match widget_size {
        Some(s) => (s.0 as i32, s.1 as i32),
        None => (82, 36),
    };
    let room = screen.0 as i32 - ww;
    let max_x = if room >= 0 {
        room
    } else {
        0
    };
    let fallback = max_x - margin;
    let x = match saved_x {
        Some(sx) => clamp_i32(sx, 0, max_x),
        None => fallback,
    };
    let y = screen.1 as i32 - wh - panel;
    (x, if y >= 0 {
        y
    } else {
        0
    })
}

/// With no saved x, a widget of the size read sits `margin` pixels in from
/// the right edge of the screen and `panel` pixels above its bottom edge
/// (never above the top), so one no wider than the screen stays on it.
pub proof fn linux_widget_uses_its_size(
    screen: (u32, u32),
    w: u32,
    h: u32,
    margin: i32,
    panel: i32,
)
    requires
        w <= i32::MAX,
        h <= i32::MAX,
        screen.0 <= i32::MAX,
        screen.1 <= i32::MAX,
        w <= screen.0,
        0 <= margin,
    ensures
        linux_x(screen, Some((w, h)), margin, None) == screen.0 - w - margin,
        linux_x(screen, Some((w, h)), margin, None) + w <= screen.0,
        linux_y(screen, Some((w, h)), panel) == max_int(screen.1 - h - panel, 0),
{
    assert((w as i32) as int == w as int);
    assert((h as i32) as int == h as int);
    assert((screen.0 as i32) as int == screen.0 as int);
    assert((screen.1 as i32) as int == screen.1 as int);
}

/// A saved x is kept wherever the widget, at the size read, still fits on
/// the screen there.
pub proof fn linux_saved_x_is_kept(screen: (u32, u32), w: u32, h: u32, margin: i32, sx: i32)
    requires
        w <= i32::MAX,
        screen.0 <= i32::MAX,
        0 <= sx,
        sx + w <= screen.0,
    ensures
        linux_x(screen, Some((w, h)), margin, Some(sx)) == sx,
{
    assert((w as i32) as int == w as int);
    assert((screen.0 as i32) as int == screen.0 as int);
}

// ---------------------------------------------------------------------------
// Dragging and the saved position
// ---------------------------------------------------------------------------

/// The position after dragging the widget `dx` pixels sideways: only x moves.
pub fn dragged_position(x: i32, y: i32, dx: i32) -> (p: (i32, i32))
    requires
        fits_i32(x + dx),
    ensures
        p.0 == x + dx,
        p.1 == y,
{
    (x + dx, y)
}

/// The text stored for a saved x: its decimal form.
pub fn widget_x_text(x: i32) -> (s: String)
    ensures
        s@ == int_text(x as int),
{
    string_of(&int_chars(x as i64))
}

/// The x read back from stored text: the text without surrounding white
/// space, parsed as an `i32`; `None` where it is not one.
pub fn parse_widget_x(contents: &str) -> (r: Option<i32>)
    ensures
        r == parse_i32(strip(contents@, CharClass::WhiteSpace)),
{
    let text = chars_of(contents);
    let trimmed = strip_chars(&text, &CharClass::WhiteSpace);
    parse_i32_chars(&trimmed)
}

/// Reading back the text stored for an x gives that x.
pub proof fn saved_widget_x_reads_back(x: i32)
    ensures
        parse_i32(strip(int_text(x as int), CharClass::WhiteSpace)) == Some(x),
{
    let s = int_text(x as int);
    let d = if x < 0 {
        decimal((-x) as nat)
    } else {
        decimal(x as nat)
    };
    lemma_decimal_shape(if x < 0 {
        (-x) as nat
    } else {
        x as nat
    });
    lemma_decimal_value(if x < 0 {
        (-x) as nat
    } else {
        x as nat
    });
    assert(is_digit(d[0]));
    assert(is_digit(d[d.len() - 1]));
    assert(s.last() == d[d.len() - 1]);
    lemma_strip_start_at(s, CharClass::WhiteSpace, 0);
    assert(s.skip(0) =~= s);
    lemma_strip_end_at(s, CharClass::WhiteSpace, s.len() as int);
    assert(s.take(s.len() as int) =~= s);
    assert(strip(s, CharClass::WhiteSpace) == s);
    if x < 0 {
        assert(unsigned_part(s) =~= d);
    } else {
        assert(s[0] == d[0]);
        assert(unsigned_part(s) == d);
    }
    assert(all_digits(d));
    assert(digits_value(unsigned_part(s)) == if x < 0 {
        -x
    } else {
        x as int
    });
}

} // verus!
