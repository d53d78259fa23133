use fsp::editor::{
    blit_extent, editor_key_action, editor_title, editor_window_placement, output_file_name,
    scroll_position, scroll_range, wheel_scroll, EditorKey, ScrollCode,
};
use fsp::capture::ScreenRect;
use fsp::hotkeys::{hotkey_action, timing_line, HotkeyAction};
use fsp::overlay::{point_from_lparam, KeyAction, MouseUpAction, OverlayState, Selection, VK_ESCAPE, VK_RETURN};

fn lp(x: isize, y: isize) -> isize {
    (y << 16) | x
}

#[test]
fn click_selects_full_screen() {
    let mut o = OverlayState::new("cap.png".to_string());
    assert!(!o.is_done());
    o.handle_mouse_down(lp(100, 100));
    assert!(o.handle_mouse_move(lp(102, 103)));
    assert_eq!(o.handle_mouse_up(lp(103, 104)), MouseUpAction::Close);
    assert!(o.is_done());
    assert_eq!(o.finish(), Selection::FullScreen { image_path: "cap.png".to_string() });
}

#[test]
fn drag_selects_normalized_region() {
    let mut o = OverlayState::new("cap.png".to_string());
    assert!(!o.handle_mouse_move(lp(5, 5)));
    assert_eq!(o.selection_rect(), None);
    o.handle_mouse_down(lp(300, 200));
    o.handle_mouse_move(lp(100, 250));
    assert_eq!(o.selection_rect(), Some((100, 200, 300, 250)));
    let a = o.handle_mouse_up(lp(100, 250));
    assert_eq!(a, MouseUpAction::Crop { x: 100, y: 200, width: 200, height: 50 });
    assert!(!o.is_done());
    o.complete_region(100, 200, 200, 50, Some("region_1.png".to_string()));
    assert_eq!(
        o.finish(),
        Selection::Region { x: 100, y: 200, width: 200, height: 50, image_path: "region_1.png".to_string() }
    );
}

#[test]
fn failed_crop_cancels_and_keys_close() {
    let mut o = OverlayState::new("cap.png".to_string());
    o.handle_mouse_down(lp(0, 0));
    let _ = o.handle_mouse_up(lp(50, 0));
    o.complete_region(0, 0, 50, 0, None);
    assert_eq!(o.finish(), Selection::Cancelled);

    let mut k = OverlayState::new("cap.png".to_string());
    assert_eq!(k.handle_key(0x41), KeyAction::Default);
    assert!(!k.is_done());
    assert_eq!(k.handle_key(VK_ESCAPE), KeyAction::Close);
    assert_eq!(k.finish(), Selection::Cancelled);

    let mut r = OverlayState::new("cap.png".to_string());
    assert_eq!(r.handle_key(VK_RETURN), KeyAction::Close);
    assert_eq!(r.finish(), Selection::FullScreen { image_path: "cap.png".to_string() });

    let idle = OverlayState::new("cap.png".to_string());
    assert_eq!(idle.finish(), Selection::Cancelled);

    let mut up = OverlayState::new("cap.png".to_string());
    assert_eq!(up.handle_mouse_up(lp(1, 1)), MouseUpAction::Ignore);
}

#[test]
fn lparam_words_are_unsigned() {
    let p = point_from_lparam(-1);
    assert_eq!((p.x, p.y), (0xFFFF, 0xFFFF));
    let q = point_from_lparam(lp(7, 9));
    assert_eq!((q.x, q.y), (7, 9));
}

#[test]
fn scrolling_stays_in_range() {
    assert_eq!(scroll_position(ScrollCode::LineDown, 0, 500, 0, 2000), Some(40));
    assert_eq!(scroll_position(ScrollCode::LineUp, 10, 500, 0, 2000), Some(0));
    assert_eq!(scroll_position(ScrollCode::PageDown, 1400, 500, 0, 2000), Some(1500));
    assert_eq!(scroll_position(ScrollCode::ThumbTrack, 0, 500, 777, 2000), Some(777));
    assert_eq!(scroll_position(ScrollCode::PageDown, 0, 500, 0, 300), Some(0));
    assert_eq!(scroll_position(ScrollCode::Other, 123, 500, 0, 2000), None);
    // Only the requested sum has to fit: a page as large as i32 allows is fine for a
    // line step.
    assert_eq!(scroll_position(ScrollCode::LineUp, 100, i32::MAX, 0, 0), Some(0));
    assert_eq!(scroll_position(ScrollCode::LineDown, 100, i32::MAX, 0, i32::MAX), Some(0));
    assert_eq!(scroll_position(ScrollCode::Other, i32::MAX, i32::MAX, 0, i32::MIN), None);
}

#[test]
fn wheel_moves_forty_per_notch() {
    // One notch toward the user (negative delta) scrolls down.
    let down = ((-120i16 as u16) as usize) << 16;
    assert_eq!(wheel_scroll(0, down, 500, 2000), 40);
    let up = (120usize) << 16;
    assert_eq!(wheel_scroll(100, up, 500, 2000), 60);
    // Partial notches round toward zero.
    assert_eq!(wheel_scroll(100, (60usize) << 16, 500, 2000), 80);
    assert_eq!(wheel_scroll(100, ((-1i16 as u16) as usize) << 16, 500, 2000), 100);
    assert_eq!(wheel_scroll(1490, down, 500, 2000), 1500);
}

#[test]
fn editor_layout() {
    let work = ScreenRect { left: 0, top: 0, right: 1920, bottom: 1080 };
    assert_eq!(editor_window_placement(work, 4000, 3000), (192, 108, 1536, 864));
    assert_eq!(editor_window_placement(work, 800, 600), (560, 240, 800, 600));
    assert_eq!(blit_extent(1000, 800, 100), 700);
    assert_eq!(blit_extent(500, 800, 100), 500);
    assert_eq!(scroll_range(800, 500, 30), (799, 500, 30));
}

#[test]
fn editor_keys_and_names() {
    assert_eq!(editor_key_action(0x1B, false), EditorKey::Close);
    assert_eq!(editor_key_action(0x43, true), EditorKey::Copy);
    assert_eq!(editor_key_action(0x43, false), EditorKey::Default);
    assert_eq!(editor_key_action(0x53, true), EditorKey::Save);
    assert_eq!(output_file_name("screenshot_{timestamp}.png", 42), "screenshot_42.png");
    assert_eq!(output_file_name("{timestamp}-{timestamp}", 7), "7-7");
    assert_eq!(editor_title(Some("capture_1.png")), "FSP - capture_1.png");
    assert_eq!(editor_title(None), "FSP - capture");
}

#[test]
fn hotkeys_and_timing() {
    assert_eq!(hotkey_action(false, 1), HotkeyAction::CaptureMonitor);
    assert_eq!(hotkey_action(false, 2), HotkeyAction::CaptureActiveWindow);
    assert_eq!(hotkey_action(true, 1), HotkeyAction::Ignore);
    assert_eq!(hotkey_action(false, 3), HotkeyAction::Ignore);
    assert_eq!(timing_line(12, 3400, 3412), "capture=12ms overlay=3400ms total=3412ms");
}
