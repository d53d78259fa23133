use vstd::prelude::*;

use crate::text::{decimal, chars_to_string, push_str, push_decimal};

verus! {

/// The id of the Print Screen hotkey.
pub const HOTKEY_PRINT_SCREEN: i32 = 1;

/// The id of the Alt+Print Screen hotkey.
pub const HOTKEY_ALT_PRINT_SCREEN: i32 = 2;

/// What a hotkey asks for.
#[derive(Clone, Copy, Debug, PartialEq, Eq)]
pub enum HotkeyAction {
    /// Nothing: an overlay is already up, or the hotkey is not ours.
    Ignore,
    /// Capture the monitor under the cursor and let the user select.
    CaptureMonitor,
    /// Capture the window in the foreground.
    CaptureActiveWindow,
}

/// The answer to a hotkey. While an overlay is up every hotkey is ignored, so that
/// overlays are never stacked.
pub fn hotkey_action(overlay_active: bool, id: i32) -> (r: HotkeyAction)
    ensures
        r == (if overlay_active {
            HotkeyAction::Ignore
        } else if id == HOTKEY_PRINT_SCREEN {
            HotkeyAction::CaptureMonitor
        } else if id == HOTKEY_ALT_PRINT_SCREEN {
            HotkeyAction::CaptureActiveWindow
        } else {
            HotkeyAction::Ignore
        }),
{
    if overlay_active {
        HotkeyAction::Ignore
    } else if id == HOTKEY_PRINT_SCREEN {
        HotkeyAction::CaptureMonitor
    } else if id == HOTKEY_ALT_PRINT_SCREEN {
        HotkeyAction::CaptureActiveWindow
    } else {
        HotkeyAction::Ignore
    }
}

/// The timing log line `capture={c}ms overlay={o}ms total={t}ms`.
pub fn timing_line(capture_ms: u128, overlay_ms: u128, total_ms: u128) -> (r: String)
    ensures
        r@ == "capture="@ + decimal(capture_ms as nat) + "ms overlay="@ + decimal(overlay_ms as nat)
            + "ms total="@ + decimal(total_ms as nat) + "ms"@,
{
    let mut out: Vec<char> = Vec::new();
    push_str(&mut out, "capture=");
    push_decimal(&mut out, capture_ms);
    push_str(&mut out, "ms overlay=");
    push_decimal(&mut out, overlay_ms);
    push_str(&mut out, "ms total=");
    push_decimal(&mut out, total_ms);
    push_str(&mut out, "ms");
    chars_to_string(out.as_slice())
}

} // verus!
