//! Moving the widget while the left button is held: each step reads the button and the
//! cursor and either moves the window by the cursor's travel or ends the drag.
use vstd::prelude::*;

verus! {

/// Where a drag started: the window's top-left corner and the cursor.
#[derive(Clone, Copy)]
pub struct DragOrigin {
    pub base_x: i32,
    pub base_y: i32,
    pub start_x: i32,
    pub start_y: i32,
}

/// What one step of the drag does.
pub enum DragAction {
    /// the button was released or the cursor could not be read
    Stop,
    /// move the window's top-left corner here
    MoveTo { x: i32, y: i32 },
}

/// The window position for a cursor position: the start corner moved by the cursor's travel.
pub open spec fn drag_target(o: DragOrigin, cx: i32, cy: i32) -> (int, int) {
    (o.base_x + (cx - o.start_x), o.base_y + (cy - o.start_y))
}

/// The cursor's travel and the moved corner fit in `i32`.
pub open spec fn drag_fits(o: DragOrigin, cx: i32, cy: i32) -> bool {
    &&& i32::MIN <= cx - o.start_x <= i32::MAX
    &&& i32::MIN <= cy - o.start_y <= i32::MAX
    &&& i32::MIN <= drag_target(o, cx, cy).0 <= i32::MAX
    &&& i32::MIN <= drag_target(o, cx, cy).1 <= i32::MAX
}

/// One step of the drag: with the button down and the cursor read, move the window by
/// the cursor's travel since the start; otherwise stop.
pub fn drag_step(o: &DragOrigin, button_down: bool, cursor: Option<(i32, i32)>) -> (r: DragAction)
    requires
        button_down ==> (cursor matches Some(c) ==> drag_fits(*o, c.0, c.1)),
    ensures
        match cursor {
            Some(c) if button_down => r matches DragAction::MoveTo { x, y } && (x as int, y as int) == drag_target(*o, c.0, c.1),
            _ => r is Stop,
        },
{
    if !button_down {
        return DragAction::Stop;
    }
    match cursor {
        Some(c) => DragAction::MoveTo { x: o.base_x + (c.0 - o.start_x), y: o.base_y + (c.1 - o.start_y) },
        None => DragAction::Stop,
    }
}


/// Bringing the cursor back to where the drag started brings the window back to where
/// it was, and the window follows the cursor one for one.
pub proof fn law_drag_follows_cursor(o: DragOrigin, cx: i32, cy: i32)
    ensures
        drag_target(o, o.start_x, o.start_y) == (o.base_x as int, o.base_y as int),
        drag_target(o, cx, cy).0 - o.base_x == cx - o.start_x,
        drag_target(o, cx, cy).1 - o.base_y == cy - o.start_y,
{
}

} // verus!
