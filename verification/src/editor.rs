use vstd::prelude::*;

use crate::capture::ScreenRect;
use crate::text::{decimal, str_to_chars, chars_to_string, replace_all, replace_all_exec, push_decimal, push_str};

verus! {

/// How far one scroll-bar arrow step or one wheel notch moves, in pixels.
pub const SCROLL_LINE: i32 = 40;

/// A scroll-bar request.
#[derive(Clone, Copy, Debug, PartialEq, Eq)]
pub enum ScrollCode {
    LineUp,
    LineDown,
    PageUp,
    PageDown,
    ThumbTrack,
    Other,
}

/// `v` held within `lo..=hi`, as `i32::clamp` gives it.
pub open spec fn clamp(v: int, lo: int, hi: int) -> int {
    if v < lo {
        lo
    } else if v > hi {
        hi
    } else {
        v
    }
}

/// The largest scroll offset: the part of the image past one page, or 0.
pub open spec fn scroll_max(extent: int, page: int) -> int {
    if extent - page > 0 { extent - page } else { 0 }
}

/// The offset that a scroll-bar request asks for, before it is held in range.
pub open spec fn requested_offset(code: ScrollCode, current: i32, page: i32, track: i32) -> int {
    match code {
        ScrollCode::LineUp => current - SCROLL_LINE,
        ScrollCode::LineDown => current + SCROLL_LINE,
        ScrollCode::PageUp => current - page,
        ScrollCode::PageDown => current + page,
        ScrollCode::ThumbTrack => track as int,
        ScrollCode::Other => current as int,
    }
}

/// The new scroll offset for a scroll-bar request over an image `extent` pixels long
/// in a view `page` pixels long: a line is 40 pixels, a page is the view, a thumb
/// drag goes to `track`; the result is held within `0..=extent - page`. Other
/// requests leave the offset alone (`None`).
pub fn scroll_position(code: ScrollCode, current: i32, page: i32, track: i32, extent: i32) -> (r: Option<i32>)
    requires
        i32::MIN <= requested_offset(code, current, page, track) <= i32::MAX,
        code != ScrollCode::Other ==> i32::MIN <= extent - page <= i32::MAX,
    ensures
        match code {
            ScrollCode::Other => r is None,
            _ => r == Some(clamp(requested_offset(code, current, page, track), 0, scroll_max(extent as int, page as int)) as i32),
        },
        r matches Some(p) ==> 0 <= p <= scroll_max(extent as int, page as int),
        0 <= current <= scroll_max(extent as int, page as int) && page >= 0 ==> match code {
            ScrollCode::LineUp => r matches Some(p) && p <= current && (current - 40 >= 0 ==> p == current - 40),
            ScrollCode::LineDown => r matches Some(p) && p >= current
                && (current + 40 <= scroll_max(extent as int, page as int) ==> p == current + 40),
            ScrollCode::PageUp => r matches Some(p) && p <= current && (current - page >= 0 ==> p == current - page),
            ScrollCode::PageDown => r matches Some(p) && p >= current
                && (current + page <= scroll_max(extent as int, page as int) ==> p == current + page),
            ScrollCode::ThumbTrack => 0 <= track <= scroll_max(extent as int, page as int) ==> r == Some(track),
            ScrollCode::Other => r is None,
        },
{
    proof {
        if 0 <= current <= scroll_max(extent as int, page as int) && page >= 0 {
            lemma_scroll_directions(current, page, track, extent);
        }
    }
    let new_pos = match code {
        ScrollCode::LineUp => current - SCROLL_LINE,
        ScrollCode::LineDown => current + SCROLL_LINE,
        ScrollCode::PageUp => current - page,
        ScrollCode::PageDown => current + page,
        ScrollCode::ThumbTrack => track,
        ScrollCode::Other => {
            return None;
        },
    };
    let d = extent - page;
    let max = if d > 0 { d } else { 0 };
    Some(clamp_i32(new_pos, 0, max))
}

fn clamp_i32(v: i32, lo: i32, hi: i32) -> (r: i32)
    requires
        lo <= hi,
    ensures
        r == clamp(v as int, lo as int, hi as int),
{
    if v < lo {
        lo
    } else if v > hi {
        hi
    } else {
        v
    }
}

/// `a / b` rounded toward zero, as integer division does.
pub open spec fn div_toward_zero(a: int, b: int) -> int {
    if a >= 0 { a / b } else { -((-a) / b) }
}

/// The wheel rotation that a mouse-wheel message's `wparam` carries: the high word of
/// its low 32 bits, as a signed 16-bit value.
pub open spec fn wheel_delta(wparam: usize) -> i16 {
    ((wparam >> 16) & 0xFFFF) as i16
}

/// The new vertical offset after a wheel message: 40 pixels per notch of 120, down
/// for a rotation toward the user, held within `0..=extent - page`.
pub fn wheel_scroll(current: i32, wparam: usize, page: i32, extent: i32) -> (r: i32)
    requires
        i32::MIN <= current + div_toward_zero(-(wheel_delta(wparam) as int) * 40, 120) <= i32::MAX,
        i32::MIN <= extent - page <= i32::MAX,
    ensures
        r == clamp(
            current + div_toward_zero(-(wheel_delta(wparam) as int) * 40, 120),
            0,
            scroll_max(extent as int, page as int),
        ),
        0 <= r <= scroll_max(extent as int, page as int),
{
    let raw = (wparam >> 16) & 0xFFFF;
    let delta = raw as i16;
    let neg = -(delta as i32) * 40;
    // Integer division rounds toward zero.
    let amount: i32 = if neg >= 0 { neg / 120 } else { -((-neg) / 120) };
    assert(-(32768 * 40) <= neg <= 32768 * 40);
    let d = extent - page;
    let max = if d > 0 { d } else { 0 };
    clamp_i32(current + amount, 0, max)
}

/// The width or height of the image part that a paint copies: the view, or what is
/// left of the image past the offset, whichever is smaller.
pub fn blit_extent(client: i32, image: i32, offset: i32) -> (r: i32)
    requires
        i32::MIN <= image - offset <= i32::MAX,
    ensures
        r == (if client < image - offset { client as int } else { image - offset }),
{
    let rest = image - offset;
    if client < rest { client } else { rest }
}

/// The scroll-bar range for an image `extent` pixels long shown `page` pixels at a
/// time at `pos`: maximum `extent - 1`, page size `page`, position `pos`.
pub fn scroll_range(extent: i32, page: i32, pos: i32) -> (r: (i32, u32, i32))
    requires
        extent > i32::MIN,
    ensures
        r.0 == extent - 1,
        r.1 == page as u32,
        r.2 == pos,
{
    (extent - 1, page as u32, pos)
}

/// Where the editor window goes: as large as the image but at most 80% of the work
/// area each way, centered on the work area. The result is `(x, y, width, height)`.
pub open spec fn window_placement(work: ScreenRect, width: u32, height: u32) -> (int, int, int, int) {
    let wa_w = work.right - work.left;
    let wa_h = work.bottom - work.top;
    let cap_w = div_toward_zero(wa_w * 80, 100);
    let cap_h = div_toward_zero(wa_h * 80, 100);
    let w = if (width as i32) < cap_w { width as i32 as int } else { cap_w };
    let h = if (height as i32) < cap_h { height as i32 as int } else { cap_h };
    (work.left + div_toward_zero(wa_w - w, 2), work.top + div_toward_zero(wa_h - h, 2), w, h)
}

/// Whether the placement arithmetic fits in `i32`.
pub open spec fn placement_fits(work: ScreenRect, width: u32, height: u32) -> bool {
    let wa_w = work.right - work.left;
    let wa_h = work.bottom - work.top;
    let (x, y, w, h) = window_placement(work, width, height);
    &&& i32::MIN <= wa_w <= i32::MAX
    &&& i32::MIN <= wa_h <= i32::MAX
    &&& i32::MIN < wa_w * 80 <= i32::MAX
    &&& i32::MIN < wa_h * 80 <= i32::MAX
    &&& i32::MIN < wa_w - w <= i32::MAX
    &&& i32::MIN < wa_h - h <= i32::MAX
    &&& i32::MIN <= x <= i32::MAX
    &&& i32::MIN <= y <= i32::MAX
}

fn div_i32(a: i32, b: i32) -> (r: i32)
    requires
        b > 0,
        a > i32::MIN,
    ensures
        r == div_toward_zero(a as int, b as int),
{
    if a >= 0 { a / b } else { -((-a) / b) }
}

/// The editor window's `(x, y, width, height)` for an image on the work area.
pub fn editor_window_placement(work: ScreenRect, width: u32, height: u32) -> (r: (i32, i32, i32, i32))
    requires
        placement_fits(work, width, height),
    ensures
        r.0 == window_placement(work, width, height).0,
        r.1 == window_placement(work, width, height).1,
        r.2 == window_placement(work, width, height).2,
        r.3 == window_placement(work, width, height).3,
{
    let wa_w = work.right - work.left;
    let wa_h = work.bottom - work.top;
    let cap_w = div_i32(wa_w * 80, 100);
    let cap_h = div_i32(wa_h * 80, 100);
    let iw = width as i32;
    let ih = height as i32;
    let w = if iw < cap_w { iw } else { cap_w };
    let h = if ih < cap_h { ih } else { cap_h };
    let x = work.left + div_i32(wa_w - w, 2);
    let y = work.top + div_i32(wa_h - h, 2);
    (x, y, w, h)
}

/// What a key press in the editor asks for.
#[derive(Clone, Copy, Debug, PartialEq, Eq)]
pub enum EditorKey {
    /// Escape: close the editor.
    Close,
    /// Ctrl+C: copy the capture to the clipboard.
    Copy,
    /// Ctrl+S: save the capture to the output folder.
    Save,
    /// Any other key: default handling.
    Default,
}

/// The editor's answer to a key press, given whether Ctrl is down.
pub fn editor_key_action(vk: u16, ctrl: bool) -> (r: EditorKey)
    ensures
        r == (if vk == 0x1B {
            EditorKey::Close
        } else if ctrl && vk == 0x43 {
            EditorKey::Copy
        } else if ctrl && vk == 0x53 {
            EditorKey::Save
        } else {
            EditorKey::Default
        }),
{
    if vk == 0x1B {
        EditorKey::Close
    } else if ctrl && vk == 0x43 {
        EditorKey::Copy
    } else if ctrl && vk == 0x53 {
        EditorKey::Save
    } else {
        EditorKey::Default
    }
}

/// The name a saved capture gets: the file pattern with each `{timestamp}` replaced
/// by the time in milliseconds.
pub fn output_file_name(pattern: &str, timestamp: u128) -> (r: String)
    ensures
        r@ == replace_all(pattern@, "{timestamp}"@, decimal(timestamp as nat)),
{
    proof {
        reveal_strlit("{timestamp}");
    }
    let p = str_to_chars(pattern);
    let key = str_to_chars("{timestamp}");
    let mut digits: Vec<char> = Vec::new();
    push_decimal(&mut digits, timestamp);
    assert(digits@ =~= decimal(timestamp as nat));
    let out = replace_all_exec(&p, &key, &digits);
    chars_to_string(out.as_slice())
}

/// The editor's title: `FSP - ` and the capture's file name, or `capture` when it
/// has none.
pub fn editor_title(file_name: Option<&str>) -> (r: String)
    ensures
        r@ == "FSP - "@ + match file_name {
            Some(n) => n@,
            None => "capture"@,
        },
{
    let mut out: Vec<char> = Vec::new();
    push_str(&mut out, "FSP - ");
    match file_name {
        Some(n) => push_str(&mut out, n),
        None => push_str(&mut out, "capture"),
    }
    chars_to_string(out.as_slice())
}

/// How each scroll request moves an offset that lies in range: a line or page up
/// never moves it down and moves it up by exactly 40 pixels or one page when that
/// stays at or above 0; a line or page down never moves it up and moves it down by
/// exactly that much when that stays within the scroll range; a thumb drag to a
/// position in range goes there.
pub proof fn lemma_scroll_directions(current: i32, page: i32, track: i32, extent: i32)
    requires
        0 <= current <= scroll_max(extent as int, page as int),
        page >= 0,
    ensures
        ({
            let max = scroll_max(extent as int, page as int);
            let up = clamp(requested_offset(ScrollCode::LineUp, current, page, track), 0, max);
            let down = clamp(requested_offset(ScrollCode::LineDown, current, page, track), 0, max);
            let pup = clamp(requested_offset(ScrollCode::PageUp, current, page, track), 0, max);
            let pdown = clamp(requested_offset(ScrollCode::PageDown, current, page, track), 0, max);
            let thumb = clamp(requested_offset(ScrollCode::ThumbTrack, current, page, track), 0, max);
            &&& up <= current && (current - 40 >= 0 ==> up == current - 40)
            &&& down >= current && (current + 40 <= max ==> down == current + 40)
            &&& pup <= current && (current - page >= 0 ==> pup == current - page)
            &&& pdown >= current && (current + page <= max ==> pdown == current + page)
            &&& (0 <= track <= max ==> thumb == track)
            &&& clamp(requested_offset(ScrollCode::Other, current, page, track), 0, max) == current
        }),
{
}

/// A scrolled offset never leaves `0..=extent - page` (or 0 when the image fits).
pub proof fn lemma_scroll_in_range(v: int, extent: int, page: int)
    ensures
        0 <= clamp(v, 0, scroll_max(extent, page)) <= scroll_max(extent, page),
{
}

} // verus!
