//! The vocabulary of a hotkey chord as the host names it, a set of modifier
//! keys and one key, and the byte that each of them has in a HID keyboard
//! report.

use vstd::prelude::*;
use crate::hid;

verus! {

/// A set of modifier keys as the hotkey layer of the host reports it, one
/// bit per member. Any combination of bits is a value; bits without a name
/// below are carried unchanged.
#[derive(Clone, Copy, Debug, PartialEq, Eq, Hash, Structural)]
pub struct Modifiers {
    pub bits: u32,
}

impl Modifiers {
    pub const ALT: u32 = 0x01;
    pub const ALT_GRAPH: u32 = 0x02;
    pub const CAPS_LOCK: u32 = 0x04;
    pub const CONTROL: u32 = 0x08;
    pub const FN: u32 = 0x10;
    pub const FN_LOCK: u32 = 0x20;
    pub const META: u32 = 0x40;
    pub const NUM_LOCK: u32 = 0x80;
    pub const SCROLL_LOCK: u32 = 0x100;
    pub const SHIFT: u32 = 0x200;
    pub const SYMBOL: u32 = 0x400;
    pub const SYMBOL_LOCK: u32 = 0x800;
    pub const HYPER: u32 = 0x1000;
    pub const SUPER: u32 = 0x2000;

    /// The set whose bits are `bits`.
    pub fn from_bits(bits: u32) -> (m: Modifiers)
        ensures
            m.bits == bits,
    {
        Modifiers { bits }
    }
}

/// The physical key of a chord. `Unidentified` stands for every key that
/// has no usage ID in the table of this library.
#[derive(Clone, Copy, Debug, PartialEq, Eq, Hash, Structural)]
pub enum Code {
    Digit0,
    Digit1,
    Digit2,
    Digit3,
    Digit4,
    Digit5,
    Digit6,
    Digit7,
    Digit8,
    Digit9,
    KeyA,
    KeyB,
    KeyC,
    KeyD,
    KeyE,
    KeyF,
    KeyG,
    KeyH,
    KeyI,
    KeyJ,
    KeyK,
    KeyL,
    KeyM,
    KeyN,
    KeyO,
    KeyP,
    KeyQ,
    KeyR,
    KeyS,
    KeyT,
    KeyU,
    KeyV,
    KeyW,
    KeyX,
    KeyY,
    KeyZ,
    Enter,
    Escape,
    Backspace,
    Tab,
    Space,
    Minus,
    Equal,
    BracketLeft,
    BracketRight,
    Backslash,
    Semicolon,
    Quote,
    Backquote,
    Comma,
    Period,
    Slash,
    CapsLock,
    F1,
    F2,
    F3,
    F4,
    F5,
    F6,
    F7,
    F8,
    F9,
    F10,
    F11,
    F12,
    PrintScreen,
    ScrollLock,
    Pause,
    Delete,
    ArrowRight,
    ArrowLeft,
    ArrowDown,
    ArrowUp,
    Unidentified,
}

/// `bit` where `bits` holds a bit of `flags`, 0 where it holds none.
pub open spec fn bit_where(bits: u32, flags: u32, bit: u8) -> u8 {
    if bits & flags != 0 {
        bit
    } else {
        0
    }
}

/// The HID modifier bitmask of the modifier set with the bits `bits`: the
/// bits of its members, taken together.
pub open spec fn mask_of_bits(bits: u32) -> u8 {
    bit_where(bits, Modifiers::CONTROL, hid::LEFT_CTRL) | bit_where(
        bits,
        Modifiers::SHIFT,
        hid::LEFT_SHIFT,
    ) | bit_where(bits, Modifiers::ALT, hid::LEFT_ALT) | bit_where(
        bits,
        Modifiers::META | Modifiers::SUPER,
        hid::LEFT_GUI,
    ) | bit_where(bits, Modifiers::ALT_GRAPH, hid::RIGHT_ALT)
}

/// The HID modifier bitmask of a modifier set: the bits of its members,
/// taken together. Control gives the bit of the left Control key, Shift
/// that of the left Shift key, Alt that of the left Alt key, AltGraph that
/// of the right Alt key. Meta and Super are two names of the key with the
/// logo of the system, and each gives the bit of the left GUI key. The
/// other members, the lock keys among them, are none of the eight modifier
/// keys of a report and give no bit.
pub open spec fn modifier_mask(m: Modifiers) -> u8 {
    mask_of_bits(m.bits)
}

/// The mask of a set is made of the masks of its parts: the empty set has
/// the empty mask, and two sets taken together have their two masks taken
/// together.
pub proof fn lemma_modifier_mask_union(a: Modifiers, b: Modifiers)
    ensures
        modifier_mask(Modifiers { bits: 0 }) == 0,
        modifier_mask(Modifiers { bits: a.bits | b.bits }) == modifier_mask(a) | modifier_mask(b),
{
    let x = a.bits;
    let y = b.bits;
    assert(mask_of_bits(0) == 0) by (bit_vector);
    assert(mask_of_bits(x | y) == mask_of_bits(x) | mask_of_bits(y)) by (bit_vector);
}

/// The mask of each set of one member.
pub proof fn lemma_modifier_mask_members()
    ensures
        modifier_mask(Modifiers { bits: Modifiers::CONTROL }) == hid::LEFT_CTRL,
        modifier_mask(Modifiers { bits: Modifiers::SHIFT }) == hid::LEFT_SHIFT,
        modifier_mask(Modifiers { bits: Modifiers::ALT }) == hid::LEFT_ALT,
        modifier_mask(Modifiers { bits: Modifiers::META }) == hid::LEFT_GUI,
        modifier_mask(Modifiers { bits: Modifiers::SUPER }) == hid::LEFT_GUI,
        modifier_mask(Modifiers { bits: Modifiers::ALT_GRAPH }) == hid::RIGHT_ALT,
        modifier_mask(Modifiers { bits: Modifiers::CAPS_LOCK }) == 0,
        modifier_mask(Modifiers { bits: Modifiers::NUM_LOCK }) == 0,
        modifier_mask(Modifiers { bits: Modifiers::SCROLL_LOCK }) == 0,
        modifier_mask(Modifiers { bits: Modifiers::FN }) == 0,
        modifier_mask(Modifiers { bits: Modifiers::FN_LOCK }) == 0,
        modifier_mask(Modifiers { bits: Modifiers::SYMBOL }) == 0,
        modifier_mask(Modifiers { bits: Modifiers::SYMBOL_LOCK }) == 0,
        modifier_mask(Modifiers { bits: Modifiers::HYPER }) == 0,
{
    assert(mask_of_bits(Modifiers::CONTROL) == hid::LEFT_CTRL) by (bit_vector);
    assert(mask_of_bits(Modifiers::SHIFT) == hid::LEFT_SHIFT) by (bit_vector);
    assert(mask_of_bits(Modifiers::ALT) == hid::LEFT_ALT) by (bit_vector);
    assert(mask_of_bits(Modifiers::META) == hid::LEFT_GUI) by (bit_vector);
    assert(mask_of_bits(Modifiers::SUPER) == hid::LEFT_GUI) by (bit_vector);
    assert(mask_of_bits(Modifiers::ALT_GRAPH) == hid::RIGHT_ALT) by (bit_vector);
    assert(mask_of_bits(Modifiers::CAPS_LOCK) == 0) by (bit_vector);
    assert(mask_of_bits(Modifiers::NUM_LOCK) == 0) by (bit_vector);
    assert(mask_of_bits(Modifiers::SCROLL_LOCK) == 0) by (bit_vector);
    assert(mask_of_bits(Modifiers::FN) == 0) by (bit_vector);
    assert(mask_of_bits(Modifiers::FN_LOCK) == 0) by (bit_vector);
    assert(mask_of_bits(Modifiers::SYMBOL) == 0) by (bit_vector);
    assert(mask_of_bits(Modifiers::SYMBOL_LOCK) == 0) by (bit_vector);
    assert(mask_of_bits(Modifiers::HYPER) == 0) by (bit_vector);
}

/// The HID modifier bitmask of an optional modifier set, where it has one
/// that is not empty.
pub open spec fn modifiers_mask(m: Option<Modifiers>) -> Option<u8> {
    match m {
        Some(m) if modifier_mask(m) != 0 => Some(modifier_mask(m)),
        _ => None,
    }
}

/// The HID usage ID of a key; 0, which a report reads as "no key", for
/// `Unidentified`.
pub open spec fn code_usage(c: Code) -> u8 {
    match c {
        Code::Digit0 => hid::KEY_0,
        Code::Digit1 => hid::KEY_1,
        Code::Digit2 => hid::KEY_2,
        Code::Digit3 => hid::KEY_3,
        Code::Digit4 => hid::KEY_4,
        Code::Digit5 => hid::KEY_5,
        Code::Digit6 => hid::KEY_6,
        Code::Digit7 => hid::KEY_7,
        Code::Digit8 => hid::KEY_8,
        Code::Digit9 => hid::KEY_9,
        Code::KeyA => hid::KEY_A,
        Code::KeyB => hid::KEY_B,
        Code::KeyC => hid::KEY_C,
        Code::KeyD => hid::KEY_D,
        Code::KeyE => hid::KEY_E,
        Code::KeyF => hid::KEY_F,
        Code::KeyG => hid::KEY_G,
        Code::KeyH => hid::KEY_H,
        Code::KeyI => hid::KEY_I,
        Code::KeyJ => hid::KEY_J,
        Code::KeyK => hid::KEY_K,
        Code::KeyL => hid::KEY_L,
        Code::KeyM => hid::KEY_M,
        Code::KeyN => hid::KEY_N,
        Code::KeyO => hid::KEY_O,
        Code::KeyP => hid::KEY_P,
        Code::KeyQ => hid::KEY_Q,
        Code::KeyR => hid::KEY_R,
        Code::KeyS => hid::KEY_S,
        Code::KeyT => hid::KEY_T,
        Code::KeyU => hid::KEY_U,
        Code::KeyV => hid::KEY_V,
        Code::KeyW => hid::KEY_W,
        Code::KeyX => hid::KEY_X,
        Code::KeyY => hid::KEY_Y,
        Code::KeyZ => hid::KEY_Z,
        Code::Enter => hid::ENTER,
        Code::Escape => hid::ESC,
        Code::Backspace => hid::BACKSPACE,
        Code::Tab => hid::TAB,
        Code::Space => hid::SPACE,
        Code::Minus => hid::KEY_MINUS,
        Code::Equal => hid::KEY_EQUAL,
        Code::BracketLeft => hid::OPEN_SQUARE_BRACKET,
        Code::BracketRight => hid::CLOSE_SQUARE_BRACKET,
        Code::Backslash => hid::BACKSLASH,
        Code::Semicolon => hid::SEMICOLON,
        Code::Quote => hid::SINGLE_QUOTE,
        Code::Backquote => hid::BACKTICK,
        Code::Comma => hid::COMMA,
        Code::Period => hid::DOT,
        Code::Slash => hid::SLASH,
        Code::CapsLock => hid::CAPSLOCK,
        Code::F1 => hid::F1,
        Code::F2 => hid::F2,
        Code::F3 => hid::F3,
        Code::F4 => hid::F4,
        Code::F5 => hid::F5,
        Code::F6 => hid::F6,
        Code::F7 => hid::F7,
        Code::F8 => hid::F8,
        Code::F9 => hid::F9,
        Code::F10 => hid::F10,
        Code::F11 => hid::F11,
        Code::F12 => hid::F12,
        Code::PrintScreen => hid::PRINT_SCREEN,
        Code::ScrollLock => hid::SCROLL_LOCK,
        Code::Pause => hid::PAUSE,
        Code::Delete => hid::DELETE,
        Code::ArrowRight => hid::KEY_RIGHT,
        Code::ArrowLeft => hid::KEY_LEFT,
        Code::ArrowDown => hid::KEY_DOWN,
        Code::ArrowUp => hid::KEY_UP,
        Code::Unidentified => 0,
    }
}

/// The key with usage ID `b`, if the table has one (`Unidentified` for 0).
pub open spec fn usage_code(b: u8) -> Option<Code> {
    if exists|c: Code| code_usage(c) == b {
        Some(choose|c: Code| code_usage(c) == b)
    } else {
        None
    }
}

/// No two keys share a usage ID.
pub proof fn lemma_code_usage_injective(a: Code, b: Code)
    requires
        code_usage(a) == code_usage(b),
    ensures
        a == b,
{
}

/// `usage_code` undoes `code_usage`.
pub proof fn lemma_usage_code_of_code(c: Code)
    ensures
        usage_code(code_usage(c)) == Some(c),
{
    let b = code_usage(c);
    assert(exists|d: Code| code_usage(d) == b);
    let d = choose|d: Code| code_usage(d) == b;
    lemma_code_usage_injective(c, d);
}

/// The HID modifier bitmask of a modifier set.
pub fn modifier2keycode(modifiers: &Modifiers) -> (mask: u8)
    ensures
        mask == modifier_mask(*modifiers),
{
    let bits: u32 = modifiers.bits;
    let ctrl: u8 = if bits & Modifiers::CONTROL != 0 {
        hid::LEFT_CTRL
    } else {
        0
    };
    let shift: u8 = if bits & Modifiers::SHIFT != 0 {
        hid::LEFT_SHIFT
    } else {
        0
    };
    let alt: u8 = if bits & Modifiers::ALT != 0 {
        hid::LEFT_ALT
    } else {
        0
    };
    let gui: u8 = if bits & (Modifiers::META | Modifiers::SUPER) != 0 {
        hid::LEFT_GUI
    } else {
        0
    };
    let alt_graph: u8 = if bits & Modifiers::ALT_GRAPH != 0 {
        hid::RIGHT_ALT
    } else {
        0
    };
    ctrl | shift | alt | gui | alt_graph
}

/// The HID modifier bitmask of an optional modifier set, `None` where the
/// set is missing or has the empty mask.
pub fn modifiers2mask(modifiers: &Option<Modifiers>) -> (mask: Option<u8>)
    ensures
        mask == modifiers_mask(*modifiers),
{
    match modifiers {
        None => None,
        Some(m) => {
            let mask: u8 = modifier2keycode(m);
            if mask != 0 {
                Some(mask)
            } else {
                None
            }
        },
    }
}

/// The HID usage ID of a key.
pub fn code2keycode(code: &Code) -> (usage: u8)
    ensures
        usage == code_usage(*code),
{
    match code {
        Code::Digit0 => hid::KEY_0,
        Code::Digit1 => hid::KEY_1,
        Code::Digit2 => hid::KEY_2,
        Code::Digit3 => hid::KEY_3,
        Code::Digit4 => hid::KEY_4,
        Code::Digit5 => hid::KEY_5,
        Code::Digit6 => hid::KEY_6,
        Code::Digit7 => hid::KEY_7,
        Code::Digit8 => hid::KEY_8,
        Code::Digit9 => hid::KEY_9,
        Code::KeyA => hid::KEY_A,
        Code::KeyB => hid::KEY_B,
        Code::KeyC => hid::KEY_C,
        Code::KeyD => hid::KEY_D,
        Code::KeyE => hid::KEY_E,
        Code::KeyF => hid::KEY_F,
        Code::KeyG => hid::KEY_G,
        Code::KeyH => hid::KEY_H,
        Code::KeyI => hid::KEY_I,
        Code::KeyJ => hid::KEY_J,
        Code::KeyK => hid::KEY_K,
        Code::KeyL => hid::KEY_L,
        Code::KeyM => hid::KEY_M,
        Code::KeyN => hid::KEY_N,
        Code::KeyO => hid::KEY_O,
        Code::KeyP => hid::KEY_P,
        Code::KeyQ => hid::KEY_Q,
        Code::KeyR => hid::KEY_R,
        Code::KeyS => hid::KEY_S,
        Code::KeyT => hid::KEY_T,
        Code::KeyU => hid::KEY_U,
        Code::KeyV => hid::KEY_V,
        Code::KeyW => hid::KEY_W,
        Code::KeyX => hid::KEY_X,
        Code::KeyY => hid::KEY_Y,
        Code::KeyZ => hid::KEY_Z,
        Code::Enter => hid::ENTER,
        Code::Escape => hid::ESC,
        Code::Backspace => hid::BACKSPACE,
        Code::Tab => hid::TAB,
        Code::Space => hid::SPACE,
        Code::Minus => hid::KEY_MINUS,
        Code::Equal => hid::KEY_EQUAL,
        Code::BracketLeft => hid::OPEN_SQUARE_BRACKET,
        Code::BracketRight => hid::CLOSE_SQUARE_BRACKET,
        Code::Backslash => hid::BACKSLASH,
        Code::Semicolon => hid::SEMICOLON,
        Code::Quote => hid::SINGLE_QUOTE,
        Code::Backquote => hid::BACKTICK,
        Code::Comma => hid::COMMA,
        Code::Period => hid::DOT,
        Code::Slash => hid::SLASH,
        Code::CapsLock => hid::CAPSLOCK,
        Code::F1 => hid::F1,
        Code::F2 => hid::F2,
        Code::F3 => hid::F3,
        Code::F4 => hid::F4,
        Code::F5 => hid::F5,
        Code::F6 => hid::F6,
        Code::F7 => hid::F7,
        Code::F8 => hid::F8,
        Code::F9 => hid::F9,
        Code::F10 => hid::F10,
        Code::F11 => hid::F11,
        Code::F12 => hid::F12,
        Code::PrintScreen => hid::PRINT_SCREEN,
        Code::ScrollLock => hid::SCROLL_LOCK,
        Code::Pause => hid::PAUSE,
        Code::Delete => hid::DELETE,
        Code::ArrowRight => hid::KEY_RIGHT,
        Code::ArrowLeft => hid::KEY_LEFT,
        Code::ArrowDown => hid::KEY_DOWN,
        Code::ArrowUp => hid::KEY_UP,
        Code::Unidentified => 0,
    }
}

/// The key that a usage ID names: the inverse of `code2keycode`.
pub fn keycode2code(usage: u8) -> (code: Option<Code>)
    ensures
        code == usage_code(usage),
        code matches Some(c) ==> code_usage(c) == usage,
        code is None ==> forall|c: Code| code_usage(c) != usage,
{
    let code = match usage {
        hid::KEY_0 => Some(Code::Digit0),
        hid::KEY_1 => Some(Code::Digit1),
        hid::KEY_2 => Some(Code::Digit2),
        hid::KEY_3 => Some(Code::Digit3),
        hid::KEY_4 => Some(Code::Digit4),
        hid::KEY_5 => Some(Code::Digit5),
        hid::KEY_6 => Some(Code::Digit6),
        hid::KEY_7 => Some(Code::Digit7),
        hid::KEY_8 => Some(Code::Digit8),
        hid::KEY_9 => Some(Code::Digit9),
        hid::KEY_A => Some(Code::KeyA),
        hid::KEY_B => Some(Code::KeyB),
        hid::KEY_C => Some(Code::KeyC),
        hid::KEY_D => Some(Code::KeyD),
        hid::KEY_E => Some(Code::KeyE),
        hid::KEY_F => Some(Code::KeyF),
        hid::KEY_G => Some(Code::KeyG),
        hid::KEY_H => Some(Code::KeyH),
        hid::KEY_I => Some(Code::KeyI),
        hid::KEY_J => Some(Code::KeyJ),
        hid::KEY_K => Some(Code::KeyK),
        hid::KEY_L => Some(Code::KeyL),
        hid::KEY_M => Some(Code::KeyM),
        hid::KEY_N => Some(Code::KeyN),
        hid::KEY_O => Some(Code::KeyO),
        hid::KEY_P => Some(Code::KeyP),
        hid::KEY_Q => Some(Code::KeyQ),
        hid::KEY_R => Some(Code::KeyR),
        hid::KEY_S => Some(Code::KeyS),
        hid::KEY_T => Some(Code::KeyT),
        hid::KEY_U => Some(Code::KeyU),
        hid::KEY_V => Some(Code::KeyV),
        hid::KEY_W => Some(Code::KeyW),
        hid::KEY_X => Some(Code::KeyX),
        hid::KEY_Y => Some(Code::KeyY),
        hid::KEY_Z => Some(Code::KeyZ),
        hid::ENTER => Some(Code::Enter),
        hid::ESC => Some(Code::Escape),
        hid::BACKSPACE => Some(Code::Backspace),
        hid::TAB => Some(Code::Tab),
        hid::SPACE => Some(Code::Space),
        hid::KEY_MINUS => Some(Code::Minus),
        hid::KEY_EQUAL => Some(Code::Equal),
        hid::OPEN_SQUARE_BRACKET => Some(Code::BracketLeft),
        hid::CLOSE_SQUARE_BRACKET => Some(Code::BracketRight),
        hid::BACKSLASH => Some(Code::Backslash),
        hid::SEMICOLON => Some(Code::Semicolon),
        hid::SINGLE_QUOTE => Some(Code::Quote),
        hid::BACKTICK => Some(Code::Backquote),
        hid::COMMA => Some(Code::Comma),
        hid::DOT => Some(Code::Period),
        hid::SLASH => Some(Code::Slash),
        hid::CAPSLOCK => Some(Code::CapsLock),
        hid::F1 => Some(Code::F1),
        hid::F2 => Some(Code::F2),
        hid::F3 => Some(Code::F3),
        hid::F4 => Some(Code::F4),
        hid::F5 => Some(Code::F5),
        hid::F6 => Some(Code::F6),
        hid::F7 => Some(Code::F7),
        hid::F8 => Some(Code::F8),
        hid::F9 => Some(Code::F9),
        hid::F10 => Some(Code::F10),
        hid::F11 => Some(Code::F11),
        hid::F12 => Some(Code::F12),
        hid::PRINT_SCREEN => Some(Code::PrintScreen),
        hid::SCROLL_LOCK => Some(Code::ScrollLock),
        hid::PAUSE => Some(Code::Pause),
        hid::DELETE => Some(Code::Delete),
        hid::KEY_RIGHT => Some(Code::ArrowRight),
        hid::KEY_LEFT => Some(Code::ArrowLeft),
        hid::KEY_DOWN => Some(Code::ArrowDown),
        hid::KEY_UP => Some(Code::ArrowUp),
        0 => Some(Code::Unidentified),
        _ => None,
    };
    proof {
        match code {
            Some(c) => {
                assert(code_usage(c) == usage);
                lemma_usage_code_of_code(c);
            },
            None => {
                assert forall|c: Code| code_usage(c) != usage by {}
            },
        }
    }
    code
}

} // verus!
