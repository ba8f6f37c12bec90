//! Per-frame input snapshot for keys and mouse buttons.
//!
//! Game systems poll "is this key held?" each frame. Key and button state is
//! double-buffered: the current frame beside the previous one, so that "just
//! pressed" and "just released" are a comparison of the two.
use vstd::prelude::*;

verus! {

/// Keyboard key codes: the keys game input reads. Each key has a fixed
/// numeric code (see [`key_code`]); `Unknown` stands for every other key.
#[derive(Debug, Clone, Copy, PartialEq, Eq, Structural, Hash)]
pub enum KeyCode {
    // Alphabet
    A, B, C, D, E, F, G, H, I, J, K, L, M, N, O, P, Q, R, S, T, U, V, W, X, Y, Z,
    // Numbers
    Key0, Key1, Key2, Key3, Key4, Key5, Key6, Key7, Key8, Key9,
    // Function keys
    F1, F2, F3, F4, F5, F6, F7, F8, F9, F10, F11, F12,
    // Special
    Space, Enter, Escape, Backspace, Tab, Delete, Insert, Left, Right, Up, Down, LeftShift, RightShift, LeftCtrl, RightCtrl, LeftAlt, RightAlt, LeftSuper, RightSuper,
    // Numpad
    Numpad0, Numpad1, Numpad2, Numpad3, Numpad4, Numpad5, Numpad6, Numpad7, Numpad8, Numpad9, NumpadAdd, NumpadSub, NumpadMul, NumpadDiv, NumpadEnter,
    // Misc
    Grave, Minus, Equal, LeftBracket, RightBracket, Backslash, Semicolon, Apostrophe, Comma, Period, Slash,
    // Sentinel
    Unknown,
}

/// The numeric code of each key.
pub open spec fn key_code(k: KeyCode) -> u8 {
    match k {
        KeyCode::A => 0,
        KeyCode::B => 1,
        KeyCode::C => 2,
        KeyCode::D => 3,
        KeyCode::E => 4,
        KeyCode::F => 5,
        KeyCode::G => 6,
        KeyCode::H => 7,
        KeyCode::I => 8,
        KeyCode::J => 9,
        KeyCode::K => 10,
        KeyCode::L => 11,
        KeyCode::M => 12,
        KeyCode::N => 13,
        KeyCode::O => 14,
        KeyCode::P => 15,
        KeyCode::Q => 16,
        KeyCode::R => 17,
        KeyCode::S => 18,
        KeyCode::T => 19,
        KeyCode::U => 20,
        KeyCode::V => 21,
        KeyCode::W => 22,
        KeyCode::X => 23,
        KeyCode::Y => 24,
        KeyCode::Z => 25,
        KeyCode::Key0 => 26,
        KeyCode::Key1 => 27,
        KeyCode::Key2 => 28,
        KeyCode::Key3 => 29,
        KeyCode::Key4 => 30,
        KeyCode::Key5 => 31,
        KeyCode::Key6 => 32,
        KeyCode::Key7 => 33,
        KeyCode::Key8 => 34,
        KeyCode::Key9 => 35,
        KeyCode::F1 => 36,
        KeyCode::F2 => 37,
        KeyCode::F3 => 38,
        KeyCode::F4 => 39,
        KeyCode::F5 => 40,
        KeyCode::F6 => 41,
        KeyCode::F7 => 42,
        KeyCode::F8 => 43,
        KeyCode::F9 => 44,
        KeyCode::F10 => 45,
        KeyCode::F11 => 46,
        KeyCode::F12 => 47,
        KeyCode::Space => 48,
        KeyCode::Enter => 49,
        KeyCode::Escape => 50,
        KeyCode::Backspace => 51,
        KeyCode::Tab => 52,
        KeyCode::Delete => 53,
        KeyCode::Insert => 54,
        KeyCode::Left => 56,
        KeyCode::Right => 57,
        KeyCode::Up => 58,
        KeyCode::Down => 59,
        KeyCode::LeftShift => 60,
        KeyCode::RightShift => 61,
        KeyCode::LeftCtrl => 62,
        KeyCode::RightCtrl => 63,
        KeyCode::LeftAlt => 64,
        KeyCode::RightAlt => 65,
        KeyCode::LeftSuper => 66,
        KeyCode::RightSuper => 67,
        KeyCode::Numpad0 => 70,
        KeyCode::Numpad1 => 71,
        KeyCode::Numpad2 => 72,
        KeyCode::Numpad3 => 73,
        KeyCode::Numpad4 => 74,
        KeyCode::Numpad5 => 75,
        KeyCode::Numpad6 => 76,
        KeyCode::Numpad7 => 77,
        KeyCode::Numpad8 => 78,
        KeyCode::Numpad9 => 79,
        KeyCode::NumpadAdd => 80,
        KeyCode::NumpadSub => 81,
        KeyCode::NumpadMul => 82,
        KeyCode::NumpadDiv => 83,
        KeyCode::NumpadEnter => 84,
        KeyCode::Grave => 86,
        KeyCode::Minus => 87,
        KeyCode::Equal => 88,
        KeyCode::LeftBracket => 89,
        KeyCode::RightBracket => 90,
        KeyCode::Backslash => 91,
        KeyCode::Semicolon => 92,
        KeyCode::Apostrophe => 93,
        KeyCode::Comma => 94,
        KeyCode::Period => 95,
        KeyCode::Slash => 96,
        KeyCode::Unknown => 255,
    }
}

/// The key with numeric code `v`, or `Unknown` where no key has that code.
pub open spec fn key_for_code(v: u8) -> KeyCode {
    match v {
        0 => KeyCode::A,
        1 => KeyCode::B,
        2 => KeyCode::C,
        3 => KeyCode::D,
        4 => KeyCode::E,
        5 => KeyCode::F,
        6 => KeyCode::G,
        7 => KeyCode::H,
        8 => KeyCode::I,
        9 => KeyCode::J,
        10 => KeyCode::K,
        11 => KeyCode::L,
        12 => KeyCode::M,
        13 => KeyCode::N,
        14 => KeyCode::O,
        15 => KeyCode::P,
        16 => KeyCode::Q,
        17 => KeyCode::R,
        18 => KeyCode::S,
        19 => KeyCode::T,
        20 => KeyCode::U,
        21 => KeyCode::V,
        22 => KeyCode::W,
        23 => KeyCode::X,
        24 => KeyCode::Y,
        25 => KeyCode::Z,
        26 => KeyCode::Key0,
        27 => KeyCode::Key1,
        28 => KeyCode::Key2,
        29 => KeyCode::Key3,
        30 => KeyCode::Key4,
        31 => KeyCode::Key5,
        32 => KeyCode::Key6,
        33 => KeyCode::Key7,
        34 => KeyCode::Key8,
        35 => KeyCode::Key9,
        36 => KeyCode::F1,
        37 => KeyCode::F2,
        38 => KeyCode::F3,
        39 => KeyCode::F4,
        40 => KeyCode::F5,
        41 => KeyCode::F6,
        42 => KeyCode::F7,
        43 => KeyCode::F8,
        44 => KeyCode::F9,
        45 => KeyCode::F10,
        46 => KeyCode::F11,
        47 => KeyCode::F12,
        48 => KeyCode::Space,
        49 => KeyCode::Enter,
        50 => KeyCode::Escape,
        51 => KeyCode::Backspace,
        52 => KeyCode::Tab,
        53 => KeyCode::Delete,
        54 => KeyCode::Insert,
        56 => KeyCode::Left,
        57 => KeyCode::Right,
        58 => KeyCode::Up,
        59 => KeyCode::Down,
        60 => KeyCode::LeftShift,
        61 => KeyCode::RightShift,
        62 => KeyCode::LeftCtrl,
        63 => KeyCode::RightCtrl,
        64 => KeyCode::LeftAlt,
        65 => KeyCode::RightAlt,
        66 => KeyCode::LeftSuper,
        67 => KeyCode::RightSuper,
        70 => KeyCode::Numpad0,
        71 => KeyCode::Numpad1,
        72 => KeyCode::Numpad2,
        73 => KeyCode::Numpad3,
        74 => KeyCode::Numpad4,
        75 => KeyCode::Numpad5,
        76 => KeyCode::Numpad6,
        77 => KeyCode::Numpad7,
        78 => KeyCode::Numpad8,
        79 => KeyCode::Numpad9,
        80 => KeyCode::NumpadAdd,
        81 => KeyCode::NumpadSub,
        82 => KeyCode::NumpadMul,
        83 => KeyCode::NumpadDiv,
        84 => KeyCode::NumpadEnter,
        86 => KeyCode::Grave,
        87 => KeyCode::Minus,
        88 => KeyCode::Equal,
        89 => KeyCode::LeftBracket,
        90 => KeyCode::RightBracket,
        91 => KeyCode::Backslash,
        92 => KeyCode::Semicolon,
        93 => KeyCode::Apostrophe,
        94 => KeyCode::Comma,
        95 => KeyCode::Period,
        96 => KeyCode::Slash,
        _ => KeyCode::Unknown,
    }
}

impl KeyCode {
    /// The key's numeric code.
    pub fn code(self) -> (v: u8)
        ensures
            v == key_code(self),
    {
        match self {
            KeyCode::A => 0,
            KeyCode::B => 1,
            KeyCode::C => 2,
            KeyCode::D => 3,
            KeyCode::E => 4,
            KeyCode::F => 5,
            KeyCode::G => 6,
            KeyCode::H => 7,
            KeyCode::I => 8,
            KeyCode::J => 9,
            KeyCode::K => 10,
            KeyCode::L => 11,
            KeyCode::M => 12,
            KeyCode::N => 13,
            KeyCode::O => 14,
            KeyCode::P => 15,
            KeyCode::Q => 16,
            KeyCode::R => 17,
            KeyCode::S => 18,
            KeyCode::T => 19,
            KeyCode::U => 20,
            KeyCode::V => 21,
            KeyCode::W => 22,
            KeyCode::X => 23,
            KeyCode::Y => 24,
            KeyCode::Z => 25,
            KeyCode::Key0 => 26,
            KeyCode::Key1 => 27,
            KeyCode::Key2 => 28,
            KeyCode::Key3 => 29,
            KeyCode::Key4 => 30,
            KeyCode::Key5 => 31,
            KeyCode::Key6 => 32,
            KeyCode::Key7 => 33,
            KeyCode::Key8 => 34,
            KeyCode::Key9 => 35,
            KeyCode::F1 => 36,
            KeyCode::F2 => 37,
            KeyCode::F3 => 38,
            KeyCode::F4 => 39,
            KeyCode::F5 => 40,
            KeyCode::F6 => 41,
            KeyCode::F7 => 42,
            KeyCode::F8 => 43,
            KeyCode::F9 => 44,
            KeyCode::F10 => 45,
            KeyCode::F11 => 46,
            KeyCode::F12 => 47,
            KeyCode::Space => 48,
            KeyCode::Enter => 49,
            KeyCode::Escape => 50,
            KeyCode::Backspace => 51,
            KeyCode::Tab => 52,
            KeyCode::Delete => 53,
            KeyCode::Insert => 54,
            KeyCode::Left => 56,
            KeyCode::Right => 57,
            KeyCode::Up => 58,
            KeyCode::Down => 59,
            KeyCode::LeftShift => 60,
            KeyCode::RightShift => 61,
            KeyCode::LeftCtrl => 62,
            KeyCode::RightCtrl => 63,
            KeyCode::LeftAlt => 64,
            KeyCode::RightAlt => 65,
            KeyCode::LeftSuper => 66,
            KeyCode::RightSuper => 67,
            KeyCode::Numpad0 => 70,
            KeyCode::Numpad1 => 71,
            KeyCode::Numpad2 => 72,
            KeyCode::Numpad3 => 73,
            KeyCode::Numpad4 => 74,
            KeyCode::Numpad5 => 75,
            KeyCode::Numpad6 => 76,
            KeyCode::Numpad7 => 77,
            KeyCode::Numpad8 => 78,
            KeyCode::Numpad9 => 79,
            KeyCode::NumpadAdd => 80,
            KeyCode::NumpadSub => 81,
            KeyCode::NumpadMul => 82,
            KeyCode::NumpadDiv => 83,
            KeyCode::NumpadEnter => 84,
            KeyCode::Grave => 86,
            KeyCode::Minus => 87,
            KeyCode::Equal => 88,
            KeyCode::LeftBracket => 89,
            KeyCode::RightBracket => 90,
            KeyCode::Backslash => 91,
            KeyCode::Semicolon => 92,
            KeyCode::Apostrophe => 93,
            KeyCode::Comma => 94,
            KeyCode::Period => 95,
            KeyCode::Slash => 96,
            KeyCode::Unknown => 255,
        }
    }

    /// The key with numeric code `v`; codes that name no key give `Unknown`.
    pub fn from_u8(v: u8) -> (k: KeyCode)
        ensures
            k == key_for_code(v),
    {
        match v {
            0 => KeyCode::A,
            1 => KeyCode::B,
            2 => KeyCode::C,
            3 => KeyCode::D,
            4 => KeyCode::E,
            5 => KeyCode::F,
            6 => KeyCode::G,
            7 => KeyCode::H,
            8 => KeyCode::I,
            9 => KeyCode::J,
            10 => KeyCode::K,
            11 => KeyCode::L,
            12 => KeyCode::M,
            13 => KeyCode::N,
            14 => KeyCode::O,
            15 => KeyCode::P,
            16 => KeyCode::Q,
            17 => KeyCode::R,
            18 => KeyCode::S,
            19 => KeyCode::T,
            20 => KeyCode::U,
            21 => KeyCode::V,
            22 => KeyCode::W,
            23 => KeyCode::X,
            24 => KeyCode::Y,
            25 => KeyCode::Z,
            26 => KeyCode::Key0,
            27 => KeyCode::Key1,
            28 => KeyCode::Key2,
            29 => KeyCode::Key3,
            30 => KeyCode::Key4,
            31 => KeyCode::Key5,
            32 => KeyCode::Key6,
            33 => KeyCode::Key7,
            34 => KeyCode::Key8,
            35 => KeyCode::Key9,
            36 => KeyCode::F1,
            37 => KeyCode::F2,
            38 => KeyCode::F3,
            39 => KeyCode::F4,
            40 => KeyCode::F5,
            41 => KeyCode::F6,
            42 => KeyCode::F7,
            43 => KeyCode::F8,
            44 => KeyCode::F9,
            45 => KeyCode::F10,
            46 => KeyCode::F11,
            47 => KeyCode::F12,
            48 => KeyCode::Space,
            49 => KeyCode::Enter,
            50 => KeyCode::Escape,
            51 => KeyCode::Backspace,
            52 => KeyCode::Tab,
            53 => KeyCode::Delete,
            54 => KeyCode::Insert,
            56 => KeyCode::Left,
            57 => KeyCode::Right,
            58 => KeyCode::Up,
            59 => KeyCode::Down,
            60 => KeyCode::LeftShift,
            61 => KeyCode::RightShift,
            62 => KeyCode::LeftCtrl,
            63 => KeyCode::RightCtrl,
            64 => KeyCode::LeftAlt,
            65 => KeyCode::RightAlt,
            66 => KeyCode::LeftSuper,
            67 => KeyCode::RightSuper,
            70 => KeyCode::Numpad0,
            71 => KeyCode::Numpad1,
            72 => KeyCode::Numpad2,
            73 => KeyCode::Numpad3,
            74 => KeyCode::Numpad4,
            75 => KeyCode::Numpad5,
            76 => KeyCode::Numpad6,
            77 => KeyCode::Numpad7,
            78 => KeyCode::Numpad8,
            79 => KeyCode::Numpad9,
            80 => KeyCode::NumpadAdd,
            81 => KeyCode::NumpadSub,
            82 => KeyCode::NumpadMul,
            83 => KeyCode::NumpadDiv,
            84 => KeyCode::NumpadEnter,
            86 => KeyCode::Grave,
            87 => KeyCode::Minus,
            88 => KeyCode::Equal,
            89 => KeyCode::LeftBracket,
            90 => KeyCode::RightBracket,
            91 => KeyCode::Backslash,
            92 => KeyCode::Semicolon,
            93 => KeyCode::Apostrophe,
            94 => KeyCode::Comma,
            95 => KeyCode::Period,
            96 => KeyCode::Slash,
            _ => KeyCode::Unknown,
        }
    }
}

/// The key that a typed character stands for: a letter of either case, a
/// digit, or the grave accent (the fallback debug modifier where `F3` is
/// taken by the OS); any other text is `Unknown`.
pub open spec fn key_for_character(s: Seq<char>) -> KeyCode {
    if s.len() != 1 {
        KeyCode::Unknown
    } else if 'a' <= s[0] && s[0] <= 'z' {
        key_for_code((s[0] as u32 - 97) as u8)
    } else if 'A' <= s[0] && s[0] <= 'Z' {
        key_for_code((s[0] as u32 - 65) as u8)
    } else if '0' <= s[0] && s[0] <= '9' {
        key_for_code((s[0] as u32 - 48 + 26) as u8)
    } else if s[0] == '`' {
        KeyCode::Grave
    } else {
        KeyCode::Unknown
    }
}

/// The key for the text a key event produced (see [`key_for_character`]).
pub fn key_from_character(s: &str) -> (k: KeyCode)
    ensures
        k == key_for_character(s@),
{
    if s.unicode_len() != 1 {
        return KeyCode::Unknown;
    }
    let c = s.get_char(0);
    if 'a' <= c && c <= 'z' {
        KeyCode::from_u8((c as u32 - 97) as u8)
    } else if 'A' <= c && c <= 'Z' {
        KeyCode::from_u8((c as u32 - 65) as u8)
    } else if '0' <= c && c <= '9' {
        KeyCode::from_u8((c as u32 - 48 + 26) as u8)
    } else if c == '`' {
        KeyCode::Grave
    } else {
        KeyCode::Unknown
    }
}

/// The code of every key names that key again.
pub proof fn law_key_code_round_trip(k: KeyCode)
    ensures
        key_for_code(key_code(k)) == k,
{
}

/// The key groups of the keyboard layout with the code each group starts
/// at: codes run on by one within a group.
pub open spec fn key_groups() -> Seq<(u8, Seq<KeyCode>)> {
    seq![
        (0u8, seq![KeyCode::A, KeyCode::B, KeyCode::C, KeyCode::D, KeyCode::E, KeyCode::F, KeyCode::G, KeyCode::H, KeyCode::I, KeyCode::J, KeyCode::K, KeyCode::L, KeyCode::M, KeyCode::N, KeyCode::O, KeyCode::P, KeyCode::Q, KeyCode::R, KeyCode::S, KeyCode::T, KeyCode::U, KeyCode::V, KeyCode::W, KeyCode::X, KeyCode::Y, KeyCode::Z]),
        (26u8, seq![KeyCode::Key0, KeyCode::Key1, KeyCode::Key2, KeyCode::Key3, KeyCode::Key4, KeyCode::Key5, KeyCode::Key6, KeyCode::Key7, KeyCode::Key8, KeyCode::Key9]),
        (36u8, seq![KeyCode::F1, KeyCode::F2, KeyCode::F3, KeyCode::F4, KeyCode::F5, KeyCode::F6, KeyCode::F7, KeyCode::F8, KeyCode::F9, KeyCode::F10, KeyCode::F11, KeyCode::F12]),
        (48u8, seq![KeyCode::Space, KeyCode::Enter, KeyCode::Escape, KeyCode::Backspace, KeyCode::Tab, KeyCode::Delete, KeyCode::Insert]),
        (56u8, seq![KeyCode::Left, KeyCode::Right, KeyCode::Up, KeyCode::Down]),
        (60u8, seq![KeyCode::LeftShift, KeyCode::RightShift, KeyCode::LeftCtrl, KeyCode::RightCtrl, KeyCode::LeftAlt, KeyCode::RightAlt, KeyCode::LeftSuper, KeyCode::RightSuper]),
        (70u8, seq![KeyCode::Numpad0, KeyCode::Numpad1, KeyCode::Numpad2, KeyCode::Numpad3, KeyCode::Numpad4, KeyCode::Numpad5, KeyCode::Numpad6, KeyCode::Numpad7, KeyCode::Numpad8, KeyCode::Numpad9, KeyCode::NumpadAdd, KeyCode::NumpadSub, KeyCode::NumpadMul, KeyCode::NumpadDiv, KeyCode::NumpadEnter]),
        (86u8, seq![KeyCode::Grave, KeyCode::Minus, KeyCode::Equal, KeyCode::LeftBracket, KeyCode::RightBracket, KeyCode::Backslash, KeyCode::Semicolon, KeyCode::Apostrophe, KeyCode::Comma, KeyCode::Period, KeyCode::Slash]),
    ]
}

/// Key codes follow the keyboard layout's numbering: within each group the
/// codes run on by one from the group's first code (letters from 0, digits
/// from 26, function keys from 36, editing keys from 48, arrows from 56,
/// modifiers from 60, numpad from 70, symbols from 86), `Unknown` is 255, and
/// every code that no key has reads back as `Unknown`.
pub proof fn law_key_code_layout(v: u8)
    ensures
        forall|g: int, i: int| 0 <= g < key_groups().len() && 0 <= i < key_groups()[g].1.len() ==>
            key_code(#[trigger] key_groups()[g].1[i]) == key_groups()[g].0 + i,
        key_code(KeyCode::Unknown) == 255,
        (55 == v || (68 <= v && v <= 69) || v == 85 || (97 <= v && v <= 255)) ==> key_for_code(v) == KeyCode::Unknown,
{
    let gs = key_groups();
    assert(gs[0].0 == 0u8 && gs[0].1.len() == 26);
    assert(gs[0].1[0] == KeyCode::A);
    assert(gs[0].1[1] == KeyCode::B);
    assert(gs[0].1[2] == KeyCode::C);
    assert(gs[0].1[3] == KeyCode::D);
    assert(gs[0].1[4] == KeyCode::E);
    assert(gs[0].1[5] == KeyCode::F);
    assert(gs[0].1[6] == KeyCode::G);
    assert(gs[0].1[7] == KeyCode::H);
    assert(gs[0].1[8] == KeyCode::I);
    assert(gs[0].1[9] == KeyCode::J);
    assert(gs[0].1[10] == KeyCode::K);
    assert(gs[0].1[11] == KeyCode::L);
    assert(gs[0].1[12] == KeyCode::M);
    assert(gs[0].1[13] == KeyCode::N);
    assert(gs[0].1[14] == KeyCode::O);
    assert(gs[0].1[15] == KeyCode::P);
    assert(gs[0].1[16] == KeyCode::Q);
    assert(gs[0].1[17] == KeyCode::R);
    assert(gs[0].1[18] == KeyCode::S);
    assert(gs[0].1[19] == KeyCode::T);
    assert(gs[0].1[20] == KeyCode::U);
    assert(gs[0].1[21] == KeyCode::V);
    assert(gs[0].1[22] == KeyCode::W);
    assert(gs[0].1[23] == KeyCode::X);
    assert(gs[0].1[24] == KeyCode::Y);
    assert(gs[0].1[25] == KeyCode::Z);
    assert(gs[1].0 == 26u8 && gs[1].1.len() == 10);
    assert(gs[1].1[0] == KeyCode::Key0);
    assert(gs[1].1[1] == KeyCode::Key1);
    assert(gs[1].1[2] == KeyCode::Key2);
    assert(gs[1].1[3] == KeyCode::Key3);
    assert(gs[1].1[4] == KeyCode::Key4);
    assert(gs[1].1[5] == KeyCode::Key5);
    assert(gs[1].1[6] == KeyCode::Key6);
    assert(gs[1].1[7] == KeyCode::Key7);
    assert(gs[1].1[8] == KeyCode::Key8);
    assert(gs[1].1[9] == KeyCode::Key9);
    assert(gs[2].0 == 36u8 && gs[2].1.len() == 12);
    assert(gs[2].1[0] == KeyCode::F1);
    assert(gs[2].1[1] == KeyCode::F2);
    assert(gs[2].1[2] == KeyCode::F3);
    assert(gs[2].1[3] == KeyCode::F4);
    assert(gs[2].1[4] == KeyCode::F5);
    assert(gs[2].1[5] == KeyCode::F6);
    assert(gs[2].1[6] == KeyCode::F7);
    assert(gs[2].1[7] == KeyCode::F8);
    assert(gs[2].1[8] == KeyCode::F9);
    assert(gs[2].1[9] == KeyCode::F10);
    assert(gs[2].1[10] == KeyCode::F11);
    assert(gs[2].1[11] == KeyCode::F12);
    assert(gs[3].0 == 48u8 && gs[3].1.len() == 7);
    assert(gs[3].1[0] == KeyCode::Space);
    assert(gs[3].1[1] == KeyCode::Enter);
    assert(gs[3].1[2] == KeyCode::Escape);
    assert(gs[3].1[3] == KeyCode::Backspace);
    assert(gs[3].1[4] == KeyCode::Tab);
    assert(gs[3].1[5] == KeyCode::Delete);
    assert(gs[3].1[6] == KeyCode::Insert);
    assert(gs[4].0 == 56u8 && gs[4].1.len() == 4);
    assert(gs[4].1[0] == KeyCode::Left);
    assert(gs[4].1[1] == KeyCode::Right);
    assert(gs[4].1[2] == KeyCode::Up);
    assert(gs[4].1[3] == KeyCode::Down);
    assert(gs[5].0 == 60u8 && gs[5].1.len() == 8);
    assert(gs[5].1[0] == KeyCode::LeftShift);
    assert(gs[5].1[1] == KeyCode::RightShift);
    assert(gs[5].1[2] == KeyCode::LeftCtrl);
    assert(gs[5].1[3] == KeyCode::RightCtrl);
    assert(gs[5].1[4] == KeyCode::LeftAlt);
    assert(gs[5].1[5] == KeyCode::RightAlt);
    assert(gs[5].1[6] == KeyCode::LeftSuper);
    assert(gs[5].1[7] == KeyCode::RightSuper);
    assert(gs[6].0 == 70u8 && gs[6].1.len() == 15);
    assert(gs[6].1[0] == KeyCode::Numpad0);
    assert(gs[6].1[1] == KeyCode::Numpad1);
    assert(gs[6].1[2] == KeyCode::Numpad2);
    assert(gs[6].1[3] == KeyCode::Numpad3);
    assert(gs[6].1[4] == KeyCode::Numpad4);
    assert(gs[6].1[5] == KeyCode::Numpad5);
    assert(gs[6].1[6] == KeyCode::Numpad6);
    assert(gs[6].1[7] == KeyCode::Numpad7);
    assert(gs[6].1[8] == KeyCode::Numpad8);
    assert(gs[6].1[9] == KeyCode::Numpad9);
    assert(gs[6].1[10] == KeyCode::NumpadAdd);
    assert(gs[6].1[11] == KeyCode::NumpadSub);
    assert(gs[6].1[12] == KeyCode::NumpadMul);
    assert(gs[6].1[13] == KeyCode::NumpadDiv);
    assert(gs[6].1[14] == KeyCode::NumpadEnter);
    assert(gs[7].0 == 86u8 && gs[7].1.len() == 11);
    assert(gs[7].1[0] == KeyCode::Grave);
    assert(gs[7].1[1] == KeyCode::Minus);
    assert(gs[7].1[2] == KeyCode::Equal);
    assert(gs[7].1[3] == KeyCode::LeftBracket);
    assert(gs[7].1[4] == KeyCode::RightBracket);
    assert(gs[7].1[5] == KeyCode::Backslash);
    assert(gs[7].1[6] == KeyCode::Semicolon);
    assert(gs[7].1[7] == KeyCode::Apostrophe);
    assert(gs[7].1[8] == KeyCode::Comma);
    assert(gs[7].1[9] == KeyCode::Period);
    assert(gs[7].1[10] == KeyCode::Slash);
}

/// Mouse button identifier.
#[derive(Debug, Clone, Copy, PartialEq, Eq, Structural, Hash)]
pub enum MouseButton {
    Left,
    Right,
    Middle,
    Other(u8),
}

/// Number of key slots in the snapshot: one per possible key code.
pub const KEY_SLOTS: usize = 256;

/// Number of mouse button slots; extra buttons share the last one.
pub const BUTTON_SLOTS: usize = 8;

/// The slot that records a mouse button's state.
pub open spec fn button_slot(b: MouseButton) -> int {
    match b {
        MouseButton::Left => 0,
        MouseButton::Right => 1,
        MouseButton::Middle => 2,
        MouseButton::Other(n) => if n < 7 { n as int } else { 7 },
    }
}

/// Mouse buttons use the first slots in the order left, right, middle;
/// another button `n` uses slot `n`, capped at the last slot.
pub proof fn law_button_slots(n: u8)
    ensures
        button_slot(MouseButton::Left) == 0,
        button_slot(MouseButton::Right) == 1,
        button_slot(MouseButton::Middle) == 2,
        button_slot(MouseButton::Other(n)) == (if n < 7 { n as int } else { 7 }),
        0 <= button_slot(MouseButton::Other(n)) < 8,
{
}

/// What the snapshot holds: held state this frame and last frame, for the
/// key slots and the mouse button slots.
pub struct InputSnapshot {
    pub keys: Seq<bool>,
    pub keys_before: Seq<bool>,
    pub buttons: Seq<bool>,
    pub buttons_before: Seq<bool>,
}

/// Key and mouse button state for the current and the previous frame.
#[derive(Debug, Clone)]
pub struct InputState {
    keys_current: [bool; 256],
    keys_previous: [bool; 256],
    mouse_current: [bool; 8],
    mouse_previous: [bool; 8],
}

impl View for InputState {
    type V = InputSnapshot;

    closed spec fn view(&self) -> InputSnapshot {
        InputSnapshot {
            keys: self.keys_current@,
            keys_before: self.keys_previous@,
            buttons: self.mouse_current@,
            buttons_before: self.mouse_previous@,
        }
    }
}

impl InputSnapshot {
    /// Held this frame.
    pub open spec fn key_held(self, k: KeyCode) -> bool {
        self.keys[key_code(k) as int]
    }

    /// Held last frame.
    pub open spec fn key_was_held(self, k: KeyCode) -> bool {
        self.keys_before[key_code(k) as int]
    }

    pub open spec fn button_held(self, b: MouseButton) -> bool {
        self.buttons[button_slot(b)]
    }

    pub open spec fn button_was_held(self, b: MouseButton) -> bool {
        self.buttons_before[button_slot(b)]
    }

    /// Slot counts of a snapshot.
    pub open spec fn well_sized(self) -> bool {
        &&& self.keys.len() == KEY_SLOTS
        &&& self.keys_before.len() == KEY_SLOTS
        &&& self.buttons.len() == BUTTON_SLOTS
        &&& self.buttons_before.len() == BUTTON_SLOTS
    }
}

impl InputState {
    /// The snapshot always has one slot per key code and per button slot.
    pub proof fn lemma_well_sized(&self)
        ensures
            self@.well_sized(),
    {
    }

    /// Nothing held, now or last frame.
    pub fn new() -> (s: Self)
        ensures
            s@.well_sized(),
            forall|i: int| 0 <= i < KEY_SLOTS ==> !s@.keys[i] && !s@.keys_before[i],
            forall|i: int| 0 <= i < BUTTON_SLOTS ==> !s@.buttons[i] && !s@.buttons_before[i],
    {
        InputState {
            keys_current: [false; 256],
            keys_previous: [false; 256],
            mouse_current: [false; 8],
            mouse_previous: [false; 8],
        }
    }

    /// Ends the frame: this frame's state becomes last frame's.
    pub fn advance_frame(&mut self)
        ensures
            final(self)@.keys == old(self)@.keys,
            final(self)@.keys_before == old(self)@.keys,
            final(self)@.buttons == old(self)@.buttons,
            final(self)@.buttons_before == old(self)@.buttons,
    {
        self.keys_previous = self.keys_current;
        self.mouse_previous = self.mouse_current;
    }

    /// Records whether `key` is held this frame.
    pub fn set_key(&mut self, key: KeyCode, pressed: bool)
        ensures
            final(self)@.keys == old(self)@.keys.update(key_code(key) as int, pressed),
            final(self)@.keys_before == old(self)@.keys_before,
            final(self)@.buttons == old(self)@.buttons,
            final(self)@.buttons_before == old(self)@.buttons_before,
    {
        let i = key.code() as usize;
        self.keys_current[i] = pressed;
    }

    /// Is the key currently held down?
    pub fn key_held(&self, key: KeyCode) -> (b: bool)
        ensures
            b == self@.key_held(key),
    {
        self.keys_current[key.code() as usize]
    }

    /// Was the key pressed this frame (not held last frame)?
    pub fn key_just_pressed(&self, key: KeyCode) -> (b: bool)
        ensures
            b == (self@.key_held(key) && !self@.key_was_held(key)),
    {
        let i = key.code() as usize;
        self.keys_current[i] && !self.keys_previous[i]
    }

    /// Was the key released this frame?
    pub fn key_just_released(&self, key: KeyCode) -> (b: bool)
        ensures
            b == (!self@.key_held(key) && self@.key_was_held(key)),
    {
        let i = key.code() as usize;
        !self.keys_current[i] && self.keys_previous[i]
    }

    fn mouse_btn_idx(button: MouseButton) -> (i: usize)
        ensures
            i == button_slot(button),
            i < BUTTON_SLOTS,
    {
        match button {
            MouseButton::Left => 0,
            MouseButton::Right => 1,
            MouseButton::Middle => 2,
            MouseButton::Other(n) => if n < 7 { n as usize } else { 7 },
        }
    }

    /// Records whether `button` is held this frame.
    pub fn set_mouse_button(&mut self, button: MouseButton, pressed: bool)
        ensures
            final(self)@.buttons == old(self)@.buttons.update(button_slot(button), pressed),
            final(self)@.buttons_before == old(self)@.buttons_before,
            final(self)@.keys == old(self)@.keys,
            final(self)@.keys_before == old(self)@.keys_before,
    {
        let i = Self::mouse_btn_idx(button);
        self.mouse_current[i] = pressed;
    }

    pub fn mouse_held(&self, button: MouseButton) -> (b: bool)
        ensures
            b == self@.button_held(button),
    {
        self.mouse_current[Self::mouse_btn_idx(button)]
    }

    pub fn mouse_just_pressed(&self, button: MouseButton) -> (b: bool)
        ensures
            b == (self@.button_held(button) && !self@.button_was_held(button)),
    {
        let i = Self::mouse_btn_idx(button);
        self.mouse_current[i] && !self.mouse_previous[i]
    }

    pub fn mouse_just_released(&self, button: MouseButton) -> (b: bool)
        ensures
            b == (!self@.button_held(button) && self@.button_was_held(button)),
    {
        let i = Self::mouse_btn_idx(button);
        !self.mouse_current[i] && self.mouse_previous[i]
    }
}

impl Default for InputState {
    /// Nothing held, now or last frame.
    fn default() -> (s: Self)
        ensures
            s@.well_sized(),
            forall|i: int| 0 <= i < KEY_SLOTS ==> !s@.keys[i] && !s@.keys_before[i],
            forall|i: int| 0 <= i < BUTTON_SLOTS ==> !s@.buttons[i] && !s@.buttons_before[i],
    {
        Self::new()
    }
}

/// After a frame ends nothing is "just pressed" or "just released": every key
/// and button reads as held last frame exactly when it is held now.
pub proof fn law_advance_frame_settles(before: InputSnapshot, after: InputSnapshot, k: KeyCode, b: MouseButton)
    requires
        after.keys == before.keys,
        after.keys_before == before.keys,
        after.buttons == before.buttons,
        after.buttons_before == before.buttons,
    ensures
        !(after.key_held(k) && !after.key_was_held(k)),
        !(!after.key_held(k) && after.key_was_held(k)),
        !(after.button_held(b) && !after.button_was_held(b)),
        !(!after.button_held(b) && after.button_was_held(b)),
{
}

/// A key is never "just pressed" and "just released" in the same frame.
pub proof fn law_press_and_release_exclusive(s: InputSnapshot, k: KeyCode, b: MouseButton)
    ensures
        !((s.key_held(k) && !s.key_was_held(k)) && (!s.key_held(k) && s.key_was_held(k))),
        !((s.button_held(b) && !s.button_was_held(b)) && (!s.button_held(b) && s.button_was_held(b))),
{
}

} // verus!
