//! What the platform tells the simulation, one event per tick.

use crate::components::Key;
use vstd::prelude::*;

verus! {

/// A button of an input device.
#[derive(Clone, Copy, PartialEq, Eq, Structural, Debug)]
pub enum Button {
    /// A key of the keyboard.
    Keyboard(Key),
    /// A button of any other device.
    Other,
}

/// The event of one tick.
#[derive(Clone, Copy, PartialEq, Eq, Structural, Debug)]
pub enum Event {
    /// Time has passed: `dt` seconds.
    Update { dt: i64 },
    /// The scene is about to be drawn into a window of this size.
    Render { width: i64, height: i64 },
    /// A button went down.
    Press(Button),
    /// A button came up.
    Release(Button),
    /// Anything else.
    Other,
}

impl Event {
    /// The time that has passed, for an update event.
    pub fn update_args(&self) -> (dt: Option<i64>)
        ensures
            dt == (match *self {
                Event::Update { dt } => Some(dt),
                _ => None,
            }),
    {
        match *self {
            Event::Update { dt } => Some(dt),
            _ => None,
        }
    }

    /// The width and height of the window, for a render event.
    pub fn render_args(&self) -> (size: Option<(i64, i64)>)
        ensures
            size == (match *self {
                Event::Render { width, height } => Some((width, height)),
                _ => None,
            }),
    {
        match *self {
            Event::Render { width, height } => Some((width, height)),
            _ => None,
        }
    }

    /// The button that went down, for a press event.
    pub fn press_args(&self) -> (button: Option<Button>)
        ensures
            button == (match *self {
                Event::Press(button) => Some(button),
                _ => None,
            }),
    {
        match *self {
            Event::Press(button) => Some(button),
            _ => None,
        }
    }

    /// The button that came up, for a release event.
    pub fn release_args(&self) -> (button: Option<Button>)
        ensures
            button == (match *self {
                Event::Release(button) => Some(button),
                _ => None,
            }),
    {
        match *self {
            Event::Release(button) => Some(button),
            _ => None,
        }
    }
}

} // verus!
