use canopy::platform::event::{CanopyEvent, Modifiers};
use canopy::platform::input::{key_from_character, InputState, KeyCode, MouseButton};
use canopy::platform::window::WindowConfig;

#[test]
fn key_codes_match_the_code_table() {
    assert_eq!(KeyCode::A.code(), 0);
    assert_eq!(KeyCode::Z.code(), 25);
    assert_eq!(KeyCode::Key0.code(), 26);
    assert_eq!(KeyCode::F1.code(), 36);
    assert_eq!(KeyCode::Space.code(), 48);
    assert_eq!(KeyCode::Left.code(), 56);
    assert_eq!(KeyCode::LeftShift.code(), 60);
    assert_eq!(KeyCode::LeftSuper.code(), 66);
    assert_eq!(KeyCode::Numpad0.code(), 70);
    assert_eq!(KeyCode::NumpadAdd.code(), 80);
    assert_eq!(KeyCode::Grave.code(), 86);
    assert_eq!(KeyCode::Slash.code(), 96);
    assert_eq!(KeyCode::Unknown.code(), 255);
}

#[test]
fn from_u8_inverts_code_and_falls_back_to_unknown() {
    for v in 0..=255u8 {
        let k = KeyCode::from_u8(v);
        if k != KeyCode::Unknown {
            assert_eq!(k.code(), v);
        }
    }
    assert_eq!(KeyCode::from_u8(48), KeyCode::Space);
    assert_eq!(KeyCode::from_u8(55), KeyCode::Unknown);
    assert_eq!(KeyCode::from_u8(68), KeyCode::Unknown);
    assert_eq!(KeyCode::from_u8(97), KeyCode::Unknown);
    assert_eq!(KeyCode::from_u8(KeyCode::RightAlt.code()), KeyCode::RightAlt);
}

#[test]
fn key_press_is_just_pressed_for_one_frame() {
    let mut input = InputState::new();
    assert!(!input.key_held(KeyCode::W));
    input.set_key(KeyCode::W, true);
    assert!(input.key_held(KeyCode::W));
    assert!(input.key_just_pressed(KeyCode::W));
    assert!(!input.key_just_released(KeyCode::W));
    input.advance_frame();
    assert!(input.key_held(KeyCode::W));
    assert!(!input.key_just_pressed(KeyCode::W));
    input.set_key(KeyCode::W, false);
    assert!(input.key_just_released(KeyCode::W));
    input.advance_frame();
    assert!(!input.key_just_released(KeyCode::W));
    assert!(!input.key_held(KeyCode::A));
}

#[test]
fn mouse_buttons_share_the_last_slot_beyond_seven() {
    let mut input = InputState::new();
    input.set_mouse_button(MouseButton::Other(200), true);
    assert!(input.mouse_held(MouseButton::Other(7)));
    assert!(input.mouse_just_pressed(MouseButton::Other(9)));
    assert!(!input.mouse_held(MouseButton::Left));
    input.set_mouse_button(MouseButton::Left, true);
    input.advance_frame();
    input.set_mouse_button(MouseButton::Left, false);
    assert!(input.mouse_just_released(MouseButton::Left));
    assert!(!input.mouse_just_pressed(MouseButton::Other(7)));
    assert!(!input.mouse_held(MouseButton::Middle));
    assert!(!input.mouse_held(MouseButton::Right));
}

#[test]
fn default_window_config() {
    let c = WindowConfig::default();
    assert_eq!(c.title, "Canopy Engine");
    assert_eq!((c.width, c.height), (1920, 1080));
    assert!(c.resizable && c.vsync);
    assert!(!c.fullscreen && !c.headless);
}

#[test]
fn default_modifiers_are_released() {
    let m = Modifiers::default();
    assert!(!m.shift && !m.ctrl && !m.alt && !m.super_key);
}

use canopy::platform::window::{CursorAction, WindowEvent, WindowState};

#[test]
fn click_captures_and_escape_releases_the_cursor() {
    let mut w = WindowState::new(800, 600);
    assert!(!w.cursor_grabbed);
    let o = w.handle_event(WindowEvent::MouseInput { button: MouseButton::Left, pressed: true });
    assert_eq!(o.cursor, CursorAction::Grab);
    assert!(!o.exit);
    assert!(w.cursor_grabbed);
    assert!(w.input.mouse_held(MouseButton::Left));
    // A second click keeps the capture without grabbing again.
    let o = w.handle_event(WindowEvent::MouseInput { button: MouseButton::Right, pressed: true });
    assert_eq!(o.cursor, CursorAction::Keep);
    let o = w.handle_event(WindowEvent::Key { key: KeyCode::Escape, pressed: true });
    assert_eq!(o.cursor, CursorAction::Release);
    assert!(!w.cursor_grabbed);
    assert!(w.input.key_held(KeyCode::Escape));
    // Escape while free changes nothing about the cursor.
    let o = w.handle_event(WindowEvent::Key { key: KeyCode::Escape, pressed: true });
    assert_eq!(o.cursor, CursorAction::Keep);
}

#[test]
fn focus_loss_frees_the_os_cursor_but_keeps_the_capture() {
    let mut w = WindowState::new(800, 600);
    w.set_cursor_grabbed(true);
    let o = w.handle_event(WindowEvent::Focused(false));
    assert_eq!(o.cursor, CursorAction::Release);
    assert!(w.cursor_grabbed);
    let o = w.handle_event(WindowEvent::Focused(true));
    assert_eq!(o.cursor, CursorAction::Grab);
    w.set_cursor_grabbed(false);
    let o = w.handle_event(WindowEvent::Focused(true));
    assert_eq!(o.cursor, CursorAction::Keep);
}

#[test]
fn close_exits_and_resize_records_the_size() {
    let mut w = WindowState::new(800, 600);
    let o = w.handle_event(WindowEvent::Resized { physical_width: 2048, physical_height: 1536, logical_width: 1024, logical_height: 768 });
    assert!(!o.exit);
    assert_eq!(w.logical_size, (1024, 768));
    assert_eq!(w.physical_size, (2048, 1536));
    assert_eq!(w.poll_events(), vec![CanopyEvent::WindowResized { width: 1024, height: 768 }]);
    let o = w.handle_event(WindowEvent::CloseRequested);
    assert!(o.exit);
    w.handle_event(WindowEvent::Key { key: KeyCode::A, pressed: true });
    w.end_frame();
    assert!(!w.input.key_just_pressed(KeyCode::A));
    w.handle_event(WindowEvent::Key { key: KeyCode::A, pressed: false });
    assert!(w.input.key_just_released(KeyCode::A));
}

use canopy::script::input::{key_from_upper_name, parse_key_name};

#[test]
fn script_key_names_ignore_case() {
    assert_eq!(parse_key_name("a"), KeyCode::A);
    assert_eq!(parse_key_name("Z"), KeyCode::Z);
    assert_eq!(parse_key_name("space"), KeyCode::Space);
    assert_eq!(parse_key_name("Escape"), KeyCode::Escape);
    assert_eq!(parse_key_name("enter"), KeyCode::Enter);
    assert_eq!(parse_key_name("up"), KeyCode::Up);
    assert_eq!(parse_key_name("Down"), KeyCode::Down);
    assert_eq!(parse_key_name("F1"), KeyCode::Unknown);
    assert_eq!(parse_key_name(""), KeyCode::Unknown);
}

#[test]
fn upper_key_names_are_matched_exactly() {
    assert_eq!(key_from_upper_name("LEFT"), KeyCode::Left);
    assert_eq!(key_from_upper_name("RIGHT"), KeyCode::Right);
    assert_eq!(key_from_upper_name("left"), KeyCode::Unknown);
    assert_eq!(key_from_upper_name("SPACE "), KeyCode::Unknown);
}

#[test]
fn window_events_are_queued_in_order_and_drained() {
    let mut w = WindowState::new(800, 600);
    assert!(!w.handle_event(WindowEvent::Resized { physical_width: 1024, physical_height: 768, logical_width: 1024, logical_height: 768 }).exit);
    w.handle_event(WindowEvent::Key { key: KeyCode::W, pressed: true });
    w.handle_event(WindowEvent::MouseInput { button: MouseButton::Left, pressed: false });
    assert!(w.handle_event(WindowEvent::CloseRequested).exit);
    let none = Modifiers { shift: false, ctrl: false, alt: false, super_key: false };
    assert_eq!(
        w.poll_events(),
        vec![
            CanopyEvent::WindowResized { width: 1024, height: 768 },
            CanopyEvent::KeyPressed { key: KeyCode::W, modifiers: none },
            CanopyEvent::MouseButtonReleased { button: MouseButton::Left },
            CanopyEvent::WindowCloseRequested,
        ]
    );
    assert!(w.poll_events().is_empty());
}

#[test]
fn typed_characters_map_to_keys() {
    assert_eq!(key_from_character("a"), KeyCode::A);
    assert_eq!(key_from_character("Z"), KeyCode::Z);
    assert_eq!(key_from_character("7"), KeyCode::Key7);
    assert_eq!(key_from_character("`"), KeyCode::Grave);
    assert_eq!(key_from_character("-"), KeyCode::Unknown);
    assert_eq!(key_from_character("ab"), KeyCode::Unknown);
    assert_eq!(key_from_character(""), KeyCode::Unknown);
    assert_eq!(key_from_character("é"), KeyCode::Unknown);
}
