//! Window settings and the window's event decisions.
use vstd::prelude::*;
use crate::platform::input::{key_code, button_slot, InputState, KeyCode, MouseButton};
use crate::platform::event::{no_modifiers, CanopyEvent, Modifiers};

verus! {

/// Configuration for window creation.
#[derive(Debug, Clone)]
pub struct WindowConfig {
    pub title: String,
    pub width: u32,
    pub height: u32,
    pub resizable: bool,
    pub fullscreen: bool,
    pub vsync: bool,
    pub headless: bool,
}

impl Default for WindowConfig {
    /// A resizable 1920x1080 vsynced window titled "Canopy Engine".
    fn default() -> (c: Self)
        ensures
            c.title@ == "Canopy Engine"@,
            c.width == 1920,
            c.height == 1080,
            c.resizable,
            !c.fullscreen,
            c.vsync,
            !c.headless,
    {
        WindowConfig {
            title: "Canopy Engine".to_string(),
            width: 1920,
            height: 1080,
            resizable: true,
            fullscreen: false,
            vsync: true,
            headless: false,
        }
    }
}

/// A window-system event the window layer decides on. Pointer motion,
/// wheel and raw mouse deltas carry floating-point coordinates and only feed
/// the pointer state, so they are not listed here.
#[derive(Debug, Clone, Copy, PartialEq, Eq, Structural)]
pub enum WindowEvent {
    CloseRequested,
    /// The window's new size, in physical pixels and in logical pixels (the
    /// physical size divided by the display's scale factor).
    Resized { physical_width: u32, physical_height: u32, logical_width: u32, logical_height: u32 },
    Focused(bool),
    Key { key: KeyCode, pressed: bool },
    MouseInput { button: MouseButton, pressed: bool },
}

/// What to do to the OS cursor.
#[derive(Debug, Clone, Copy, PartialEq, Eq, Structural)]
pub enum CursorAction {
    /// Leave it as it is.
    Keep,
    /// Lock it (or, where locking fails, confine it) and hide it.
    Grab,
    /// Free it and show it.
    Release,
}

/// The window's state as events change it: key and button state, sizes,
/// and whether the cursor is captured.
pub struct WindowState {
    pub input: InputState,
    pub logical_size: (u32, u32),
    pub physical_size: (u32, u32),
    /// Whether the cursor is captured (grabbed and hidden).
    pub cursor_grabbed: bool,
    /// Events translated since they were last polled, oldest first.
    pub pending: Vec<CanopyEvent>,
}

/// The platform event a window event is translated to.
pub open spec fn event_for(event: WindowEvent) -> CanopyEvent {
    match event {
        WindowEvent::CloseRequested => CanopyEvent::WindowCloseRequested,
        WindowEvent::Resized { logical_width, logical_height, .. } => CanopyEvent::WindowResized { width: logical_width, height: logical_height },
        WindowEvent::Focused(focused) => CanopyEvent::WindowFocusChanged { focused },
        WindowEvent::Key { key, pressed } => if pressed {
            CanopyEvent::KeyPressed { key, modifiers: no_modifiers() }
        } else {
            CanopyEvent::KeyReleased { key, modifiers: no_modifiers() }
        },
        WindowEvent::MouseInput { button, pressed } => if pressed {
            CanopyEvent::MouseButtonPressed { button }
        } else {
            CanopyEvent::MouseButtonReleased { button }
        },
    }
}

/// Translates a window event to the platform event queued for it.
fn translate(event: WindowEvent) -> (e: CanopyEvent)
    ensures
        e == event_for(event),
{
    let modifiers = Modifiers { shift: false, ctrl: false, alt: false, super_key: false };
    match event {
        WindowEvent::CloseRequested => CanopyEvent::WindowCloseRequested,
        WindowEvent::Resized { logical_width, logical_height, .. } => CanopyEvent::WindowResized { width: logical_width, height: logical_height },
        WindowEvent::Focused(focused) => CanopyEvent::WindowFocusChanged { focused },
        WindowEvent::Key { key, pressed } => if pressed {
            CanopyEvent::KeyPressed { key, modifiers }
        } else {
            CanopyEvent::KeyReleased { key, modifiers }
        },
        WindowEvent::MouseInput { button, pressed } => if pressed {
            CanopyEvent::MouseButtonPressed { button }
        } else {
            CanopyEvent::MouseButtonReleased { button }
        },
    }
}

/// The effect of one event: whether the engine should shut down, and what to
/// do to the OS cursor.
#[derive(Debug, Clone, Copy, PartialEq, Eq, Structural)]
pub struct EventOutcome {
    pub exit: bool,
    pub cursor: CursorAction,
}

impl WindowState {
    /// A window of the given size with nothing held and the cursor free.
    pub fn new(width: u32, height: u32) -> (w: Self)
        ensures
            w.logical_size == (width, height),
            w.physical_size == (width, height),
            !w.cursor_grabbed,
            w.pending@ == Seq::<CanopyEvent>::empty(),
            w.input@.well_sized(),
            forall|i: int| 0 <= i < 256 ==> !w.input@.keys[i] && !w.input@.keys_before[i],
            forall|i: int| 0 <= i < 8 ==> !w.input@.buttons[i] && !w.input@.buttons_before[i],
    {
        WindowState {
            input: InputState::new(),
            logical_size: (width, height),
            physical_size: (width, height),
            cursor_grabbed: false,
            pending: Vec::new(),
        }
    }

    /// Grabs or releases the cursor.
    pub fn set_cursor_grabbed(&mut self, grabbed: bool) -> (a: CursorAction)
        ensures
            final(self).cursor_grabbed == grabbed,
            a == (if grabbed { CursorAction::Grab } else { CursorAction::Release }),
            final(self).pending@ == old(self).pending@,
            final(self).input@ == old(self).input@,
            final(self).logical_size == old(self).logical_size,
            final(self).physical_size == old(self).physical_size,
    {
        self.cursor_grabbed = grabbed;
        if grabbed { CursorAction::Grab } else { CursorAction::Release }
    }

    /// Applies one window event. Closing asks for shutdown; a resize records
    /// the new size; regaining focus re-applies a capture that was on, and
    /// losing focus frees the OS cursor while remembering the capture; Escape
    /// ends a capture; any mouse press starts one. Keys and buttons update the
    /// input state. The translated platform event is queued.
    pub fn handle_event(&mut self, event: WindowEvent) -> (o: EventOutcome)
        ensures
            o.exit == (event == WindowEvent::CloseRequested),
            final(self).pending@ == old(self).pending@.push(event_for(event)),
            match event {
                WindowEvent::CloseRequested => {
                    &&& o.cursor == CursorAction::Keep
                    &&& final(self).cursor_grabbed == old(self).cursor_grabbed
                    &&& final(self).input@ == old(self).input@
                    &&& final(self).logical_size == old(self).logical_size
                    &&& final(self).physical_size == old(self).physical_size
                },
                WindowEvent::Resized { physical_width, physical_height, logical_width, logical_height } => {
                    &&& o.cursor == CursorAction::Keep
                    &&& final(self).logical_size == (logical_width, logical_height)
                    &&& final(self).physical_size == (physical_width, physical_height)
                    &&& final(self).cursor_grabbed == old(self).cursor_grabbed
                    &&& final(self).input@ == old(self).input@
                },
                WindowEvent::Focused(focused) => {
                    &&& o.cursor == (if focused && old(self).cursor_grabbed { CursorAction::Grab }
                        else if !focused { CursorAction::Release } else { CursorAction::Keep })
                    &&& final(self).cursor_grabbed == old(self).cursor_grabbed
                    &&& final(self).input@ == old(self).input@
                    &&& final(self).logical_size == old(self).logical_size
                    &&& final(self).physical_size == old(self).physical_size
                },
                WindowEvent::Key { key, pressed } => {
                    let releases = pressed && key == KeyCode::Escape && old(self).cursor_grabbed;
                    &&& o.cursor == (if releases { CursorAction::Release } else { CursorAction::Keep })
                    &&& final(self).cursor_grabbed == (old(self).cursor_grabbed && !releases)
                    &&& final(self).input@.keys == old(self).input@.keys.update(key_code(key) as int, pressed)
                    &&& final(self).input@.keys_before == old(self).input@.keys_before
                    &&& final(self).input@.buttons == old(self).input@.buttons
                    &&& final(self).input@.buttons_before == old(self).input@.buttons_before
                    &&& final(self).logical_size == old(self).logical_size
                    &&& final(self).physical_size == old(self).physical_size
                },
                WindowEvent::MouseInput { button, pressed } => {
                    let grabs = pressed && !old(self).cursor_grabbed;
                    &&& o.cursor == (if grabs { CursorAction::Grab } else { CursorAction::Keep })
                    &&& final(self).cursor_grabbed == (old(self).cursor_grabbed || pressed)
                    &&& final(self).input@.buttons == old(self).input@.buttons.update(button_slot(button), pressed)
                    &&& final(self).input@.buttons_before == old(self).input@.buttons_before
                    &&& final(self).input@.keys == old(self).input@.keys
                    &&& final(self).input@.keys_before == old(self).input@.keys_before
                    &&& final(self).logical_size == old(self).logical_size
                    &&& final(self).physical_size == old(self).physical_size
                },
            },
    {
        let o = self.apply_event(event);
        self.pending.push(translate(event));
        o
    }

    /// Hands out the queued platform events, oldest first, and empties the
    /// queue.
    pub fn poll_events(&mut self) -> (events: Vec<CanopyEvent>)
        ensures
            events@ == old(self).pending@,
            final(self).pending@ == Seq::<CanopyEvent>::empty(),
            final(self).input@ == old(self).input@,
            final(self).cursor_grabbed == old(self).cursor_grabbed,
            final(self).logical_size == old(self).logical_size,
            final(self).physical_size == old(self).physical_size,
    {
        let mut events: Vec<CanopyEvent> = Vec::new();
        std::mem::swap(&mut events, &mut self.pending);
        events
    }

    fn apply_event(&mut self, event: WindowEvent) -> (o: EventOutcome)
        ensures
            final(self).pending@ == old(self).pending@,
            o.exit == (event == WindowEvent::CloseRequested),
            match event {
                WindowEvent::CloseRequested => {
                    &&& o.cursor == CursorAction::Keep
                    &&& final(self).cursor_grabbed == old(self).cursor_grabbed
                    &&& final(self).input@ == old(self).input@
                    &&& final(self).logical_size == old(self).logical_size
                    &&& final(self).physical_size == old(self).physical_size
                },
                WindowEvent::Resized { physical_width, physical_height, logical_width, logical_height } => {
                    &&& o.cursor == CursorAction::Keep
                    &&& final(self).logical_size == (logical_width, logical_height)
                    &&& final(self).physical_size == (physical_width, physical_height)
                    &&& final(self).cursor_grabbed == old(self).cursor_grabbed
                    &&& final(self).input@ == old(self).input@
                },
                WindowEvent::Focused(focused) => {
                    &&& o.cursor == (if focused && old(self).cursor_grabbed { CursorAction::Grab }
                        else if !focused { CursorAction::Release } else { CursorAction::Keep })
                    &&& final(self).cursor_grabbed == old(self).cursor_grabbed
                    &&& final(self).input@ == old(self).input@
                    &&& final(self).logical_size == old(self).logical_size
                    &&& final(self).physical_size == old(self).physical_size
                },
                WindowEvent::Key { key, pressed } => {
                    let releases = pressed && key == KeyCode::Escape && old(self).cursor_grabbed;
                    &&& o.cursor == (if releases { CursorAction::Release } else { CursorAction::Keep })
                    &&& final(self).cursor_grabbed == (old(self).cursor_grabbed && !releases)
                    &&& final(self).input@.keys == old(self).input@.keys.update(key_code(key) as int, pressed)
                    &&& final(self).input@.keys_before == old(self).input@.keys_before
                    &&& final(self).input@.buttons == old(self).input@.buttons
                    &&& final(self).input@.buttons_before == old(self).input@.buttons_before
                    &&& final(self).logical_size == old(self).logical_size
                    &&& final(self).physical_size == old(self).physical_size
                },
                WindowEvent::MouseInput { button, pressed } => {
                    let grabs = pressed && !old(self).cursor_grabbed;
                    &&& o.cursor == (if grabs { CursorAction::Grab } else { CursorAction::Keep })
                    &&& final(self).cursor_grabbed == (old(self).cursor_grabbed || pressed)
                    &&& final(self).input@.buttons == old(self).input@.buttons.update(button_slot(button), pressed)
                    &&& final(self).input@.buttons_before == old(self).input@.buttons_before
                    &&& final(self).input@.keys == old(self).input@.keys
                    &&& final(self).input@.keys_before == old(self).input@.keys_before
                    &&& final(self).logical_size == old(self).logical_size
                    &&& final(self).physical_size == old(self).physical_size
                },
            },
    {
        match event {
            WindowEvent::CloseRequested => EventOutcome { exit: true, cursor: CursorAction::Keep },
            WindowEvent::Resized { physical_width, physical_height, logical_width, logical_height } => {
                self.logical_size = (logical_width, logical_height);
                self.physical_size = (physical_width, physical_height);
                EventOutcome { exit: false, cursor: CursorAction::Keep }
            },
            WindowEvent::Focused(focused) => {
                let cursor = if focused && self.cursor_grabbed {
                    // Re-apply the capture on regaining focus.
                    self.set_cursor_grabbed(true)
                } else if !focused {
                    // Free the OS cursor so other windows can be used; the
                    // capture flag is kept.
                    CursorAction::Release
                } else {
                    CursorAction::Keep
                };
                EventOutcome { exit: false, cursor }
            },
            WindowEvent::Key { key, pressed } => {
                let mut cursor = CursorAction::Keep;
                if pressed {
                    if key == KeyCode::Escape && self.cursor_grabbed {
                        cursor = self.set_cursor_grabbed(false);
                    }
                    self.input.set_key(key, true);
                } else {
                    self.input.set_key(key, false);
                }
                EventOutcome { exit: false, cursor }
            },
            WindowEvent::MouseInput { button, pressed } => {
                let mut cursor = CursorAction::Keep;
                if pressed {
                    self.input.set_mouse_button(button, true);
                    if !self.cursor_grabbed {
                        cursor = self.set_cursor_grabbed(true);
                    }
                } else {
                    self.input.set_mouse_button(button, false);
                }
                EventOutcome { exit: false, cursor }
            },
        }
    }

    /// Ends the frame for input: this frame's key and button state becomes
    /// last frame's.
    pub fn end_frame(&mut self)
        ensures
            final(self).input@.keys == old(self).input@.keys,
            final(self).input@.keys_before == old(self).input@.keys,
            final(self).input@.buttons == old(self).input@.buttons,
            final(self).input@.buttons_before == old(self).input@.buttons,
            final(self).pending@ == old(self).pending@,
            final(self).cursor_grabbed == old(self).cursor_grabbed,
            final(self).logical_size == old(self).logical_size,
            final(self).physical_size == old(self).physical_size,
    {
        self.input.advance_frame();
    }
}

/// The platform event queued for a window event reports that event: a key
/// or button going down is a press of that key or button and going up is a
/// release; a close request asks to close; a resize reports the logical size;
/// a focus change reports the new focus.
pub proof fn law_queued_event_reports_the_event(event: WindowEvent)
    ensures
        (event_for(event) == CanopyEvent::WindowCloseRequested) <==> (event == WindowEvent::CloseRequested),
        event matches WindowEvent::Key { key, pressed } ==> (
            if pressed {
                event_for(event) matches CanopyEvent::KeyPressed { key: k2, .. } && k2 == key
            } else {
                event_for(event) matches CanopyEvent::KeyReleased { key: k2, .. } && k2 == key
            }),
        event matches WindowEvent::MouseInput { button, pressed } ==> (
            if pressed {
                event_for(event) matches CanopyEvent::MouseButtonPressed { button: b2 } && b2 == button
            } else {
                event_for(event) matches CanopyEvent::MouseButtonReleased { button: b2 } && b2 == button
            }),
        event matches WindowEvent::Resized { logical_width, logical_height, .. } ==>
            event_for(event) == (CanopyEvent::WindowResized { width: logical_width, height: logical_height }),
        event matches WindowEvent::Focused(f) ==> event_for(event) == (CanopyEvent::WindowFocusChanged { focused: f }),
{
}

} // verus!
