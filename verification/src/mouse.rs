use vstd::prelude::*;

verus! {

/// A mouse button.
#[derive(Clone, Copy, PartialEq, Eq, Structural, Debug)]
pub enum MouseButton {
    Unknown,
    Left,
    Middle,
    Right,
    X1,
    X2,
}

/// A mouse event as the button state sees it: a button going down or up,
/// or anything else.
#[derive(Clone, Copy, PartialEq, Eq, Structural, Debug)]
pub enum MouseButtonEvent {
    Down(MouseButton),
    Up(MouseButton),
    Other,
}

/// Which of the buttons that pull (left) and cut (right) are held.
#[derive(Clone, Copy, PartialEq, Eq, Structural, Debug)]
pub struct MouseButtons {
    pub left_button_down: bool,
    pub right_button_down: bool,
}

impl MouseButtons {
    /// No button held.
    pub fn new() -> (b: Self)
        ensures
            !b.left_button_down,
            !b.right_button_down,
    {
        Self { left_button_down: false, right_button_down: false }
    }

    /// A left or right button going down marks it held, going up marks it
    /// released; other buttons and other events change nothing.
    pub fn process_event(&mut self, event: MouseButtonEvent)
        ensures
            final(self).left_button_down == (match event {
                MouseButtonEvent::Down(MouseButton::Left) => true,
                MouseButtonEvent::Up(MouseButton::Left) => false,
                _ => old(self).left_button_down,
            }),
            final(self).right_button_down == (match event {
                MouseButtonEvent::Down(MouseButton::Right) => true,
                MouseButtonEvent::Up(MouseButton::Right) => false,
                _ => old(self).right_button_down,
            }),
    {
        match event {
            MouseButtonEvent::Down(MouseButton::Left) => {
                if !self.left_button_down {
                    self.left_button_down = true;
                }
            },
            MouseButtonEvent::Down(MouseButton::Right) => {
                if !self.right_button_down {
                    self.right_button_down = true;
                }
            },
            MouseButtonEvent::Up(MouseButton::Left) => {
                if self.left_button_down {
                    self.left_button_down = false;
                }
            },
            MouseButtonEvent::Up(MouseButton::Right) => {
                if self.right_button_down {
                    self.right_button_down = false;
                }
            },
            _ => {},
        }
    }
}

} // verus!
