use vstd::prelude::*;

verus! {

/// One input action for a window, in its client coordinates.
pub enum InputCmd {
    /// Move the cursor to (`x`, `y`) of `hwnd`.
    Move { hwnd: isize, x: i32, y: i32 },
    /// Press or release button `button` (0 left, 1 right, 2 middle) at (`x`, `y`).
    Button { hwnd: isize, x: i32, y: i32, button: u8, down: bool },
    /// Turn the wheel by `delta` at (`x`, `y`).
    Wheel { hwnd: isize, x: i32, y: i32, delta: i32 },
    /// A key by scan code, with the character it types.
    Key { hwnd: isize, scancode: u16, unicode: u16, down: bool },
}

/// Real-input injection is disabled: nothing is sent, and `false` tells the
/// caller to post window messages instead.
pub fn send(cmd: InputCmd) -> (sent: bool)
    ensures
        !sent,
{
    false
}

} // verus!
