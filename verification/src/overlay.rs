use vstd::prelude::*;

verus! {

/// What the user chose on the overlay.
#[derive(Debug, PartialEq, Eq)]
pub enum Selection {
    /// A region of the monitor, saved to `image_path`.
    Region { x: i32, y: i32, width: u32, height: u32, image_path: String },
    /// The whole monitor, as captured to `image_path`.
    FullScreen { image_path: String },
    /// Nothing.
    Cancelled,
}

/// A point in overlay client coordinates.
#[derive(Clone, Copy, Debug, PartialEq, Eq)]
pub struct PixelPoint {
    pub x: i32,
    pub y: i32,
}

/// The virtual-key code of Escape.
pub const VK_ESCAPE: u16 = 0x1B;

/// The virtual-key code of Enter.
pub const VK_RETURN: u16 = 0x0D;

/// The point that a mouse message's `lparam` carries: the low word is x and the next
/// word is y, each read as an unsigned 16-bit value.
pub open spec fn lparam_point(lparam: isize) -> PixelPoint {
    PixelPoint { x: (lparam & 0xFFFF) as i32, y: ((lparam >> 16) & 0xFFFF) as i32 }
}

/// The point that a mouse message's `lparam` carries.
pub fn point_from_lparam(lparam: isize) -> (p: PixelPoint)
    ensures
        p == lparam_point(lparam),
        0 <= p.x <= 0xFFFF,
        0 <= p.y <= 0xFFFF,
{
    let lo = lparam & 0xFFFF;
    let hi = (lparam >> 16) & 0xFFFF;
    assert(0 <= lo <= 0xFFFF) by (bit_vector)
        requires
            lo == lparam & 0xFFFF,
    ;
    assert(0 <= hi <= 0xFFFF) by (bit_vector)
        requires
            hi == (lparam >> 16) & 0xFFFF,
    ;
    PixelPoint { x: lo as i32, y: hi as i32 }
}

/// The smaller of two numbers.
pub open spec fn min_i32(a: i32, b: i32) -> i32 {
    if a < b { a } else { b }
}

/// The larger of two numbers.
pub open spec fn max_i32(a: i32, b: i32) -> i32 {
    if a > b { a } else { b }
}

/// What a mouse-up asks of the window that shows the overlay.
#[derive(Clone, Copy, Debug, PartialEq, Eq)]
pub enum MouseUpAction {
    /// No drag was under way: nothing to do.
    Ignore,
    /// The drag was a click: the whole monitor is selected; close the overlay.
    Close,
    /// Save this region of the capture, then report it with `complete_region`.
    Crop { x: i32, y: i32, width: u32, height: u32 },
}

/// What a key press asks of the window that shows the overlay.
#[derive(Clone, Copy, Debug, PartialEq, Eq)]
pub enum KeyAction {
    /// A selection is made; close the overlay.
    Close,
    /// Not a key of the overlay: pass it to the default handling.
    Default,
}

/// The selection state of the overlay.
pub struct OverlayState {
    capture_path: String,
    selection_result: Option<Selection>,
    is_selecting: bool,
    start_point: PixelPoint,
    current_point: PixelPoint,
}

/// What the overlay state holds.
pub struct OverlayView {
    pub capture_path: Seq<char>,
    pub result: Option<SelectionView>,
    pub is_selecting: bool,
    pub start_point: PixelPoint,
    pub current_point: PixelPoint,
}

/// What a selection holds.
pub enum SelectionView {
    Region { x: i32, y: i32, width: u32, height: u32, image_path: Seq<char> },
    FullScreen { image_path: Seq<char> },
    Cancelled,
}

impl View for Selection {
    type V = SelectionView;

    open spec fn view(&self) -> SelectionView {
        match self {
            Selection::Region { x, y, width, height, image_path } => SelectionView::Region {
                x: *x,
                y: *y,
                width: *width,
                height: *height,
                image_path: image_path@,
            },
            Selection::FullScreen { image_path } => SelectionView::FullScreen { image_path: image_path@ },
            Selection::Cancelled => SelectionView::Cancelled,
        }
    }
}

impl View for OverlayState {
    type V = OverlayView;

    closed spec fn view(&self) -> OverlayView {
        OverlayView {
            capture_path: self.capture_path@,
            result: match self.selection_result {
                Some(s) => Some(s@),
                None => None,
            },
            is_selecting: self.is_selecting,
            start_point: self.start_point,
            current_point: self.current_point,
        }
    }
}

/// The rectangle `(left, top, width, height)` spanned by two points.
pub open spec fn span(a: PixelPoint, b: PixelPoint) -> (i32, i32, int, int) {
    let left = min_i32(a.x, b.x);
    let top = min_i32(a.y, b.y);
    (left, top, max_i32(a.x, b.x) - left, max_i32(a.y, b.y) - top)
}

/// The region spanned by two points is their bounding box, whichever point the drag
/// started from: its left and top edges are the smaller coordinates, its right and
/// bottom edges the larger ones, so it holds both points and swapping them changes
/// nothing.
pub proof fn lemma_span_bounding_box(a: PixelPoint, b: PixelPoint)
    ensures
        span(a, b) == span(b, a),
        ({
            let (left, top, w, h) = span(a, b);
            &&& w >= 0 && h >= 0
            &&& left <= a.x && left <= b.x && (left == a.x || left == b.x)
            &&& top <= a.y && top <= b.y && (top == a.y || top == b.y)
            &&& left + w >= a.x && left + w >= b.x && (left + w == a.x || left + w == b.x)
            &&& top + h >= a.y && top + h >= b.y && (top + h == a.y || top + h == b.y)
        }),
{
}

impl OverlayState {
    /// Points that came from mouse messages lie in `0..=0xFFFF`.
    pub closed spec fn wf(&self) -> bool {
        &&& 0 <= self.start_point.x <= 0xFFFF
        &&& 0 <= self.start_point.y <= 0xFFFF
        &&& 0 <= self.current_point.x <= 0xFFFF
        &&& 0 <= self.current_point.y <= 0xFFFF
    }

    /// A fresh overlay over the capture saved at `capture_path`: nothing selected.
    pub fn new(capture_path: String) -> (r: Self)
        ensures
            r.wf(),
            r@ == (OverlayView {
                capture_path: capture_path@,
                result: None,
                is_selecting: false,
                start_point: PixelPoint { x: 0, y: 0 },
                current_point: PixelPoint { x: 0, y: 0 },
            }),
    {
        OverlayState {
            capture_path,
            selection_result: None,
            is_selecting: false,
            start_point: PixelPoint { x: 0, y: 0 },
            current_point: PixelPoint { x: 0, y: 0 },
        }
    }

    /// Whether a selection has been made, which ends the overlay's message loop.
    pub fn is_done(&self) -> (r: bool)
        ensures
            r == self@.result is Some,
    {
        self.selection_result.is_some()
    }

    /// A button press starts a drag at the pressed point.
    pub fn handle_mouse_down(&mut self, lparam: isize)
        ensures
            final(self).wf(),
            final(self)@ == (OverlayView {
                is_selecting: true,
                start_point: lparam_point(lparam),
                current_point: lparam_point(lparam),
                ..old(self)@
            }),
    {
        let p = point_from_lparam(lparam);
        self.is_selecting = true;
        self.start_point = p;
        self.current_point = p;
    }

    /// A mouse move during a drag moves its end; the answer says whether the
    /// window must be repainted.
    pub fn handle_mouse_move(&mut self, lparam: isize) -> (repaint: bool)
        requires
            old(self).wf(),
        ensures
            final(self).wf(),
            repaint == old(self)@.is_selecting,
            final(self)@ == (if old(self)@.is_selecting {
                OverlayView { current_point: lparam_point(lparam), ..old(self)@ }
            } else {
                old(self)@
            }),
    {
        if self.is_selecting {
            self.current_point = point_from_lparam(lparam);
            true
        } else {
            false
        }
    }

    /// A button release ends a drag. A drag narrower and shorter than 5 pixels
    /// selects the whole monitor; otherwise the spanned region is to be saved.
    pub fn handle_mouse_up(&mut self, lparam: isize) -> (a: MouseUpAction)
        requires
            old(self).wf(),
        ensures
            final(self).wf(),
            !old(self)@.is_selecting ==> a == MouseUpAction::Ignore && final(self)@ == old(self)@,
            old(self)@.is_selecting ==> ({
                let end = lparam_point(lparam);
                let (left, top, w, h) = span(old(self)@.start_point, end);
                let moved = OverlayView { is_selecting: false, current_point: end, ..old(self)@ };
                if w < 5 && h < 5 {
                    &&& a == MouseUpAction::Close
                    &&& final(self)@ == (OverlayView {
                        result: Some(SelectionView::FullScreen { image_path: old(self)@.capture_path }),
                        ..moved
                    })
                } else {
                    &&& a == (MouseUpAction::Crop { x: left, y: top, width: w as u32, height: h as u32 })
                    &&& final(self)@ == moved
                }
            }),
    {
        if !self.is_selecting {
            return MouseUpAction::Ignore;
        }
        self.is_selecting = false;
        let p = point_from_lparam(lparam);
        self.current_point = p;
        let left = if self.start_point.x < p.x { self.start_point.x } else { p.x };
        let top = if self.start_point.y < p.y { self.start_point.y } else { p.y };
        let right = if self.start_point.x > p.x { self.start_point.x } else { p.x };
        let bottom = if self.start_point.y > p.y { self.start_point.y } else { p.y };
        let width = (right - left) as u32;
        let height = (bottom - top) as u32;
        if width < 5 && height < 5 {
            self.handle_full_screen_selection();
            return MouseUpAction::Close;
        }
        MouseUpAction::Crop { x: left, y: top, width, height }
    }

    /// Records the outcome of saving a dragged region: the region with the file it
    /// was saved to, or no selection when saving failed.
    pub fn complete_region(&mut self, x: i32, y: i32, width: u32, height: u32, saved: Option<String>)
        ensures
            final(self).wf() == old(self).wf(),
            final(self)@ == (OverlayView {
                result: Some(
                    match saved {
                        Some(p) => SelectionView::Region { x, y, width, height, image_path: p@ },
                        None => SelectionView::Cancelled,
                    },
                ),
                ..old(self)@
            }),
    {
        match saved {
            Some(path) => {
                self.selection_result = Some(Selection::Region { x, y, width, height, image_path: path });
            },
            None => {
                self.selection_result = Some(Selection::Cancelled);
            },
        }
    }

    /// Selects the whole monitor, as captured.
    pub fn handle_full_screen_selection(&mut self)
        ensures
            final(self).wf() == old(self).wf(),
            final(self)@ == (OverlayView {
                result: Some(SelectionView::FullScreen { image_path: old(self)@.capture_path }),
                ..old(self)@
            }),
    {
        let path = self.capture_path.clone();
        self.selection_result = Some(Selection::FullScreen { image_path: path });
    }

    /// A key press: Escape cancels, Enter selects the whole monitor; both close the
    /// overlay. Other keys go to the default handling.
    pub fn handle_key(&mut self, vk: u16) -> (a: KeyAction)
        ensures
            final(self).wf() == old(self).wf(),
            vk == VK_ESCAPE ==> a == KeyAction::Close && final(self)@ == (OverlayView {
                result: Some(SelectionView::Cancelled),
                ..old(self)@
            }),
            vk == VK_RETURN ==> a == KeyAction::Close && final(self)@ == (OverlayView {
                result: Some(SelectionView::FullScreen { image_path: old(self)@.capture_path }),
                ..old(self)@
            }),
            vk != VK_ESCAPE && vk != VK_RETURN ==> a == KeyAction::Default && final(self)@ == old(self)@,
    {
        if vk == VK_ESCAPE {
            self.selection_result = Some(Selection::Cancelled);
            KeyAction::Close
        } else if vk == VK_RETURN {
            self.handle_full_screen_selection();
            KeyAction::Close
        } else {
            KeyAction::Default
        }
    }

    /// The region to draw undimmed, `(left, top, right, bottom)`: the span of the
    /// drag under way, when it has an area.
    pub fn selection_rect(&self) -> (r: Option<(i32, i32, i32, i32)>)
        requires
            self.wf(),
        ensures
            match r {
                Some((l, t, rt, b)) => {
                    let (left, top, w, h) = span(self@.start_point, self@.current_point);
                    &&& self@.is_selecting && w > 0 && h > 0
                    &&& l == left && t == top && rt == left + w && b == top + h
                },
                None => !self@.is_selecting || span(self@.start_point, self@.current_point).2 <= 0
                    || span(self@.start_point, self@.current_point).3 <= 0,
            },
    {
        if !self.is_selecting {
            return None;
        }
        let a = self.start_point;
        let b = self.current_point;
        let left = if a.x < b.x { a.x } else { b.x };
        let top = if a.y < b.y { a.y } else { b.y };
        let right = if a.x > b.x { a.x } else { b.x };
        let bottom = if a.y > b.y { a.y } else { b.y };
        if right - left > 0 && bottom - top > 0 {
            Some((left, top, right, bottom))
        } else {
            None
        }
    }

    /// The selection the overlay ended with; no selection counts as cancelled.
    pub fn finish(self) -> (r: Selection)
        ensures
            r@ == match self@.result {
                Some(s) => s,
                None => SelectionView::Cancelled,
            },
    {
        match self.selection_result {
            Some(s) => s,
            None => Selection::Cancelled,
        }
    }
}

} // verus!
