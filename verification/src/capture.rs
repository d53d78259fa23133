use vstd::prelude::*;

use crate::text::{decimal, str_to_chars, chars_to_string, push_str, push_decimal, matches_at};

verus! {

/// A screen rectangle in pixels: left and top inclusive, right and bottom exclusive.
#[derive(Clone, Copy, Debug, PartialEq, Eq)]
pub struct ScreenRect {
    pub left: i32,
    pub top: i32,
    pub right: i32,
    pub bottom: i32,
}

/// Why a capture failed.
#[derive(Debug, PartialEq, Eq)]
pub enum CaptureError {
    /// The rectangle to capture is empty.
    InvalidCaptureDimensions,
    /// The window to capture has no area.
    InvalidWindowDimensions,
    /// No window is in the foreground.
    NoActiveWindow,
    /// The screen or the file system refused; the text says how.
    System(String),
}

/// Whether the width and height of `rect` fit in `i32`.
pub open spec fn rect_size_fits(rect: ScreenRect) -> bool {
    &&& i32::MIN <= rect.right - rect.left <= i32::MAX
    &&& i32::MIN <= rect.bottom - rect.top <= i32::MAX
}

/// The pixel size of the capture of `rect`, when it has an area.
pub fn capture_size(rect: ScreenRect) -> (r: Result<(u32, u32), CaptureError>)
    requires
        rect_size_fits(rect),
    ensures
        match r {
            Ok((w, h)) => rect.right - rect.left > 0 && rect.bottom - rect.top > 0
                && w == rect.right - rect.left && h == rect.bottom - rect.top,
            Err(e) => e == CaptureError::InvalidCaptureDimensions
                && (rect.right - rect.left <= 0 || rect.bottom - rect.top <= 0),
        },
{
    let width = rect.right - rect.left;
    let height = rect.bottom - rect.top;
    if width <= 0 || height <= 0 {
        return Err(CaptureError::InvalidCaptureDimensions);
    }
    Ok((width as u32, height as u32))
}

/// The pixel size of the capture of a window whose rectangle is `rect`, when it has
/// an area.
pub fn window_capture_size(rect: ScreenRect) -> (r: Result<(u32, u32), CaptureError>)
    requires
        rect_size_fits(rect),
    ensures
        match r {
            Ok((w, h)) => rect.right - rect.left > 0 && rect.bottom - rect.top > 0
                && w == rect.right - rect.left && h == rect.bottom - rect.top,
            Err(e) => e == CaptureError::InvalidWindowDimensions
                && (rect.right - rect.left <= 0 || rect.bottom - rect.top <= 0),
        },
{
    let width = rect.right - rect.left;
    let height = rect.bottom - rect.top;
    if width <= 0 || height <= 0 {
        return Err(CaptureError::InvalidWindowDimensions);
    }
    Ok((width as u32, height as u32))
}

/// The size of a BGRA buffer for `width * height` pixels, computed in `u32`.
pub fn bgra_buffer_len(width: u32, height: u32) -> (r: usize)
    requires
        width * height * 4 <= u32::MAX,
    ensures
        r == width * height * 4,
{
    (width * height * 4) as usize
}

/// The file name `{prefix}_{timestamp}.png` of a capture.
pub open spec fn capture_file_name_text(prefix: Seq<char>, timestamp: nat) -> Seq<char> {
    prefix + seq!['_'] + decimal(timestamp) + seq!['.', 'p', 'n', 'g']
}

/// The file name of a capture taken at `timestamp` milliseconds.
pub fn capture_file_name(prefix: &str, timestamp: u128) -> (r: String)
    ensures
        r@ == capture_file_name_text(prefix@, timestamp as nat),
{
    let mut out: Vec<char> = Vec::new();
    push_str(&mut out, prefix);
    out.push('_');
    push_decimal(&mut out, timestamp);
    out.push('.');
    out.push('p');
    out.push('n');
    out.push('g');
    assert(out@ =~= capture_file_name_text(prefix@, timestamp as nat));
    chars_to_string(out.as_slice())
}

/// The capture of the monitor under the cursor: the file it is being saved to, the
/// monitor's rectangle, and its BGRA pixels.
pub struct MonitorCapture {
    pub path: String,
    pub rect: ScreenRect,
    pub pixels: Vec<u8>,
    pub width: u32,
    pub height: u32,
}

/// The file of a monitor capture, or why the capture failed.
pub fn capture_screen(capture: Result<MonitorCapture, CaptureError>) -> (r: Result<String, CaptureError>)
    ensures
        match capture {
            Ok(c) => r matches Ok(p) && p@ == c.path@,
            Err(e) => r == Err::<String, CaptureError>(e),
        },
{
    match capture {
        Ok(c) => Ok(c.path),
        Err(e) => Err(e),
    }
}

/// How long captures are kept: 24 hours, in nanoseconds.
pub const MAX_CAPTURE_AGE_NANOS: u128 = 86_400_000_000_000;

/// Whether a file is a capture to delete: a `png` whose creation lies more than 24
/// hours back. `age_nanos` is `None` when the creation time cannot be read; a
/// creation time in the future counts as age zero.
pub fn is_stale_capture(extension: Option<&str>, age_nanos: Option<u128>) -> (r: bool)
    ensures
        r == match (extension, age_nanos) {
            (Some(e), Some(a)) => e@ == "png"@ && a > MAX_CAPTURE_AGE_NANOS,
            _ => false,
        },
{
    match extension {
        Some(e) => {
            let png = String::from_str("png");
            let ext = String::from_str(e);
            if ext == png {
                match age_nanos {
                    Some(a) => a > MAX_CAPTURE_AGE_NANOS,
                    None => false,
                }
            } else {
                false
            }
        },
        None => false,
    }
}

/// A file in the capture folder.
pub struct CaptureEntry {
    pub path: String,
    /// The file name, when it is valid Unicode.
    pub file_name: Option<String>,
    /// The extension, when it is valid Unicode.
    pub extension: Option<String>,
    /// When it was last modified, in nanoseconds from the Unix epoch (negative
    /// before it), or 0 when that cannot be read.
    pub modified: i128,
}

/// A capture file: a `png` whose name starts with `capture_`.
pub open spec fn is_capture_file(e: CaptureEntry) -> bool {
    &&& e.extension matches Some(x) && x@ == "png"@
    &&& e.file_name matches Some(n) && n@.len() >= 8 && n@.take(8) == "capture_"@
}

/// Entry `i` comes before entry `j`: it is newer, or as new and listed first.
pub open spec fn ranked_before(es: Seq<CaptureEntry>, i: int, j: int) -> bool {
    es[i].modified > es[j].modified || (es[i].modified == es[j].modified && i < j)
}

/// The number of capture files among the first `n` entries.
pub open spec fn capture_count(es: Seq<CaptureEntry>, n: int) -> nat
    decreases n,
{
    if n <= 0 {
        0
    } else {
        capture_count(es, n - 1) + if is_capture_file(es[n - 1]) { 1nat } else { 0nat }
    }
}

/// `idx` lists capture files of `es`, each once, newest first, ties in listing
/// order, and every capture file left out ranks after all that are listed.
pub open spec fn newest_first(es: Seq<CaptureEntry>, idx: Seq<int>) -> bool {
    &&& forall|a: int| 0 <= a < idx.len() ==> 0 <= #[trigger] idx[a] < es.len() && is_capture_file(es[idx[a]])
    &&& forall|a: int, b: int| 0 <= a < b < idx.len() ==> ranked_before(es, #[trigger] idx[a], #[trigger] idx[b])
    &&& forall|k: int, a: int| #![trigger idx[a], es[k]]
        0 <= k < es.len() && is_capture_file(es[k]) && !idx.contains(k) && 0 <= a < idx.len()
        ==> ranked_before(es, idx[a], k)
}

proof fn lemma_ranked_total(es: Seq<CaptureEntry>, i: int, j: int)
    requires
        i != j,
    ensures
        ranked_before(es, i, j) || ranked_before(es, j, i),
        !(ranked_before(es, i, j) && ranked_before(es, j, i)),
{
}

proof fn lemma_ranked_trans(es: Seq<CaptureEntry>, i: int, j: int, k: int)
    requires
        ranked_before(es, i, j),
        ranked_before(es, j, k),
    ensures
        ranked_before(es, i, k),
{
}

fn is_capture_file_exec(e: &CaptureEntry) -> (r: bool)
    ensures
        r == is_capture_file(*e),
{
    let png = String::from_str("png");
    let ext_ok = match &e.extension {
        Some(x) => *x == png,
        None => false,
    };
    if !ext_ok {
        return false;
    }
    match &e.file_name {
        Some(n) => {
            let cs = str_to_chars(n.as_str());
            let prefix = str_to_chars("capture_");
            let ok = matches_at(&cs, 0, &prefix);
            proof {
                if cs@.len() >= 8 {
                    assert(cs@.subrange(0, prefix@.len() as int) =~= cs@.take(prefix@.len() as int));
                }
                reveal_strlit("capture_");
            }
            ok
        },
        None => false,
    }
}

/// The newest capture files among `entries`, at most `limit` of them: `png` files
/// named `capture_...`, newest first, files as new as each other in listing order.
pub fn select_recent_captures(entries: &Vec<CaptureEntry>, limit: usize) -> (r: Vec<String>)
    ensures
        exists|idx: Seq<int>| {
            &&& newest_first(entries@, idx)
            &&& idx.len() == (if limit < capture_count(entries@, entries@.len() as int) {
                limit as nat
            } else {
                capture_count(entries@, entries@.len() as int)
            })
            &&& r@.len() == idx.len()
            &&& forall|a: int| 0 <= a < idx.len() ==> #[trigger] r@[a]@ == entries@[idx[a]].path@
        },
{
    let ghost es = entries@;
    // Indices of the capture files seen so far, kept in rank order.
    let mut ord: Vec<usize> = Vec::new();
    let mut i: usize = 0;
    while i < entries.len()
        invariant
            i <= entries.len(),
            es == entries@,
            ord@.len() == capture_count(es, i as int),
            forall|a: int| 0 <= a < ord@.len() ==> #[trigger] ord@[a] < i && is_capture_file(es[ord@[a] as int]),
            forall|a: int, b: int| 0 <= a < b < ord@.len() ==> ranked_before(es, #[trigger] ord@[a] as int, #[trigger] ord@[b] as int),
            forall|k: int| 0 <= k < i && is_capture_file(es[k]) ==> #[trigger] ord@.contains(k as usize),
        decreases entries.len() - i,
    {
        if is_capture_file_exec(&entries[i]) {
            // Find the first listed capture that `i` ranks before.
            let mut p: usize = 0;
            while p < ord.len() && entries[i].modified <= entries[ord[p]].modified
                invariant
                    p <= ord@.len(),
                    i < entries.len(),
                    es == entries@,
                    forall|a: int| 0 <= a < ord@.len() ==> #[trigger] ord@[a] < i,
                    forall|q: int| 0 <= q < p ==> !ranked_before(es, i as int, #[trigger] ord@[q] as int),
                decreases ord@.len() - p,
            {
                p = p + 1;
            }
            let ghost old_ord = ord@;
            ord.insert(p, i);
            proof {
                assert(ord@ =~= old_ord.insert(p as int, i));
                if p < old_ord.len() {
                    assert(ranked_before(es, i as int, old_ord[p as int] as int));
                }
                assert forall|a: int, b: int| 0 <= a < b < ord@.len() implies ranked_before(es, #[trigger] ord@[a] as int, #[trigger] ord@[b] as int) by {
                    if b < p {
                        assert(ord@[a] == old_ord[a] && ord@[b] == old_ord[b]);
                    } else if b == p {
                        assert(ord@[a] == old_ord[a]);
                        lemma_ranked_total(es, i as int, old_ord[a] as int);
                    } else if a < p {
                        assert(ord@[a] == old_ord[a] && ord@[b] == old_ord[b - 1]);
                    } else if a == p {
                        assert(ord@[b] == old_ord[b - 1]);
                        if b - 1 > p {
                            lemma_ranked_trans(es, i as int, old_ord[p as int] as int, old_ord[b - 1] as int);
                        }
                    } else {
                        assert(ord@[a] == old_ord[a - 1] && ord@[b] == old_ord[b - 1]);
                    }
                }
                assert forall|k: int| 0 <= k < i + 1 && is_capture_file(es[k]) implies #[trigger] ord@.contains(k as usize) by {
                    if k == i {
                        assert(ord@[p as int] == i);
                    } else {
                        assert(old_ord.contains(k as usize));
                        let a = choose|a: int| 0 <= a < old_ord.len() && old_ord[a] == k as usize;
                        if a < p {
                            assert(ord@[a] == k as usize);
                        } else {
                            assert(ord@[a + 1] == k as usize);
                        }
                    }
                }
                assert forall|a: int| 0 <= a < ord@.len() implies #[trigger] ord@[a] < i + 1 && is_capture_file(es[ord@[a] as int]) by {
                    if a < p {
                        assert(ord@[a] == old_ord[a]);
                    } else if a > p {
                        assert(ord@[a] == old_ord[a - 1]);
                    }
                }
            }
        } else {
            proof {
                assert forall|k: int| 0 <= k < i + 1 && is_capture_file(es[k]) implies #[trigger] ord@.contains(k as usize) by {
                    if k < i {
                    }
                }
            }
        }
        i = i + 1;
    }
    let count = ord.len();
    let keep = if limit < count { limit } else { count };
    let ghost idx = ord@.take(keep as int).map_values(|u: usize| u as int);
    let mut out: Vec<String> = Vec::new();
    let mut a: usize = 0;
    while a < keep
        invariant
            keep <= ord@.len(),
            a <= keep,
            es == entries@,
            forall|q: int| 0 <= q < ord@.len() ==> #[trigger] ord@[q] < entries@.len(),
            out@.len() == a,
            forall|q: int| 0 <= q < a ==> #[trigger] out@[q]@ == es[ord@[q] as int].path@,
        decreases keep - a,
    {
        out.push(entries[ord[a]].path.clone());
        a = a + 1;
    }
    proof {
        assert forall|k: int, q: int| #![trigger idx[q], es[k]]
            0 <= k < es.len() && is_capture_file(es[k]) && !idx.contains(k) && 0 <= q < idx.len()
            implies ranked_before(es, idx[q], k) by {
            assert(ord@.contains(k as usize));
            let b = choose|b: int| 0 <= b < ord@.len() && ord@[b] == k as usize;
            if b < keep {
                assert(idx[b] == k);
                assert(idx.contains(k));
            }
            assert(idx[q] == ord@[q] as int);
        }
        assert forall|x: int, y: int| 0 <= x < y < idx.len() implies ranked_before(es, #[trigger] idx[x], #[trigger] idx[y]) by {
            assert(idx[x] == ord@[x] as int && idx[y] == ord@[y] as int);
        }
        assert forall|x: int| 0 <= x < idx.len() implies 0 <= #[trigger] idx[x] < es.len() && is_capture_file(es[idx[x]]) by {
            assert(idx[x] == ord@[x] as int);
        }
        assert forall|x: int| 0 <= x < idx.len() implies #[trigger] out@[x]@ == entries@[idx[x]].path@ by {
            assert(idx[x] == ord@[x] as int);
        }
        assert(newest_first(entries@, idx));
        assert(idx.len() == keep);
    }
    out
}

} // verus!
