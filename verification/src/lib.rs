//! Bridges global hotkeys of a host to keystrokes that a companion device
//! emulates as a USB HID keyboard: the chord-to-action table, its wire
//! format, the receive-side framing and the toggle engine that decides
//! which key pulses run.

pub mod hid;
pub mod keys;
pub mod mapping;
pub mod codec;
pub mod dispatcher;
pub mod executor;
pub mod link;

pub use crate::codec::{decode, decode_payload, encode, FormatError};
pub use crate::dispatcher::{Dispatcher, Polled};
pub use crate::executor::{
    key_report, press_and_release, worker_step, Command, Executor, Pulse, CADENCE_MS,
};
pub use crate::hid::{
    LEFT_CTRL, LEFT_SHIFT, LEFT_ALT, LEFT_GUI, RIGHT_CTRL, RIGHT_SHIFT, RIGHT_ALT, RIGHT_GUI,
    KEY_A, KEY_B, KEY_C, KEY_D, KEY_E, KEY_F, KEY_G, KEY_H, KEY_I, KEY_J, KEY_K, KEY_L, KEY_M,
    KEY_N, KEY_O, KEY_P, KEY_Q, KEY_R, KEY_S, KEY_T, KEY_U, KEY_V, KEY_W, KEY_X, KEY_Y, KEY_Z,
    KEY_1, KEY_2, KEY_3, KEY_4, KEY_5, KEY_6, KEY_7, KEY_8, KEY_9, KEY_0, ENTER, ESC,
    BACKSPACE, TAB, SPACE, KEY_MINUS, KEY_EQUAL, OPEN_SQUARE_BRACKET, CLOSE_SQUARE_BRACKET,
    BACKSLASH, SEMICOLON, SINGLE_QUOTE, BACKTICK, COMMA, DOT, SLASH, CAPSLOCK, F1, F2, F3, F4,
    F5, F6, F7, F8, F9, F10, F11, F12, PRINT_SCREEN, SCROLL_LOCK, PAUSE, DELETE, KEY_RIGHT,
    KEY_LEFT, KEY_DOWN, KEY_UP,
};
pub use crate::keys::{
    code2keycode, keycode2code, modifier2keycode, modifiers2mask, Code, Modifiers,
};
pub use crate::link::{select_port, ADAPTER_PID, ADAPTER_VID, BAUD_RATE, LINK_TIMEOUT_MS};
pub use crate::mapping::{Action, Frame, Mapping, Trigger};
