//! The platform events the rest of the engine consumes, and the modifier
//! flags carried by key events.
use vstd::prelude::*;
use crate::platform::input::{KeyCode, MouseButton};

verus! {

/// Keyboard modifier key state.
#[derive(Debug, Clone, Copy, PartialEq, Eq, Structural, Default)]
pub struct Modifiers {
    pub shift: bool,
    pub ctrl: bool,
    pub alt: bool,
    pub super_key: bool,
}

/// No modifier held.
pub open spec fn no_modifiers() -> Modifiers {
    Modifiers { shift: false, ctrl: false, alt: false, super_key: false }
}

/// A platform event from the OS or windowing system. Pointer positions,
/// raw mouse deltas, wheel scrolls and gamepad axes carry floating-point
/// values and travel beside these events, not in them.
#[derive(Debug, Clone, Copy, PartialEq, Eq, Structural)]
pub enum CanopyEvent {
    /// Window was resized. Values are the new logical pixel dimensions.
    WindowResized { width: u32, height: u32 },
    /// Window close was requested (X button, Cmd+Q, etc.).
    WindowCloseRequested,
    /// Window gained or lost OS focus.
    WindowFocusChanged { focused: bool },
    /// Window was moved to a new position on screen.
    WindowMoved { x: i32, y: i32 },
    KeyPressed { key: KeyCode, modifiers: Modifiers },
    KeyReleased { key: KeyCode, modifiers: Modifiers },
    /// A character was received (for text input, not game controls).
    CharReceived(char),
    MouseButtonPressed { button: MouseButton },
    MouseButtonReleased { button: MouseButton },
    /// Mouse cursor entered or left the window.
    MouseEntered,
    MouseLeft,
    GamepadConnected { id: u32 },
    GamepadDisconnected { id: u32 },
    GamepadButton { id: u32, button: u8, pressed: bool },
}

} // verus!
