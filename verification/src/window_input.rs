//! Plain window-facing value types: the window display mode and the mouse
//! button names handed to the host layer.

use vstd::prelude::*;

verus! {

/// How the window is shown.
#[derive(Clone, Copy, Debug, PartialEq, Eq, Structural)]
pub enum WindowMode {
    Normal,
    Maximized,
    Fullscreen,
}

impl WindowMode {
    /// Decodes the host layer's numeric mode. Values other than 0, 1 and 2
    /// are a caller bug and are excluded.
    pub fn from_raw(mode: i32) -> (m: WindowMode)
        requires
            0 <= mode <= 2,
        ensures
            m == (if mode == 0 {
                WindowMode::Normal
            } else if mode == 1 {
                WindowMode::Maximized
            } else {
                WindowMode::Fullscreen
            }),
    {
        if mode == 0 {
            WindowMode::Normal
        } else if mode == 1 {
            WindowMode::Maximized
        } else {
            WindowMode::Fullscreen
        }
    }
}

/// A mouse button reported by an input event.
#[derive(Clone, Copy, Debug, PartialEq, Eq, Structural)]
pub enum Button {
    Left,
    Middle,
    Right,
    Unknown,
}

impl Button {
    /// The name the host layer publishes for the button.
    pub fn name(&self) -> (s: &'static str)
        ensures
            s@ == (match *self {
                Button::Left => "left"@,
                Button::Middle => "middle"@,
                Button::Right => "right"@,
                Button::Unknown => "?"@,
            }),
    {
        match self {
            Button::Left => "left",
            Button::Middle => "middle",
            Button::Right => "right",
            Button::Unknown => "?",
        }
    }
}

} // verus!
