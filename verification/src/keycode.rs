//! Key codes, as the USB HID usage table for keyboards numbers them.

use vstd::prelude::*;

verus! {

/// No key: a slot that reports nothing.
pub const NO_KEY: u8 = 0x00;

/// The letter A.
pub const KEY_A: u8 = 0x04;

/// The letter B.
pub const KEY_B: u8 = 0x05;

/// The letter C.
pub const KEY_C: u8 = 0x06;

/// The letter D.
pub const KEY_D: u8 = 0x07;

/// The letter E.
pub const KEY_E: u8 = 0x08;

/// The letter F.
pub const KEY_F: u8 = 0x09;

/// The letter G.
pub const KEY_G: u8 = 0x0A;

/// The letter H.
pub const KEY_H: u8 = 0x0B;

/// The letter I.
pub const KEY_I: u8 = 0x0C;

/// The letter J.
pub const KEY_J: u8 = 0x0D;

/// The letter K.
pub const KEY_K: u8 = 0x0E;

/// The letter L.
pub const KEY_L: u8 = 0x0F;

/// The letter M.
pub const KEY_M: u8 = 0x10;

/// The letter N.
pub const KEY_N: u8 = 0x11;

/// The letter O.
pub const KEY_O: u8 = 0x12;

/// The letter P.
pub const KEY_P: u8 = 0x13;

/// The letter Q.
pub const KEY_Q: u8 = 0x14;

/// The letter R.
pub const KEY_R: u8 = 0x15;

/// The letter S.
pub const KEY_S: u8 = 0x16;

/// The letter T.
pub const KEY_T: u8 = 0x17;

/// The letter U.
pub const KEY_U: u8 = 0x18;

/// The letter V.
pub const KEY_V: u8 = 0x19;

/// The letter W.
pub const KEY_W: u8 = 0x1A;

/// The letter X.
pub const KEY_X: u8 = 0x1B;

/// The letter Y.
pub const KEY_Y: u8 = 0x1C;

/// The letter Z.
pub const KEY_Z: u8 = 0x1D;

/// The digit 1.
pub const KEY_1: u8 = 0x1E;

/// The digit 2.
pub const KEY_2: u8 = 0x1F;

/// The digit 3.
pub const KEY_3: u8 = 0x20;

/// The digit 4.
pub const KEY_4: u8 = 0x21;

/// The digit 5.
pub const KEY_5: u8 = 0x22;

/// The digit 6.
pub const KEY_6: u8 = 0x23;

/// The digit 7.
pub const KEY_7: u8 = 0x24;

/// The digit 8.
pub const KEY_8: u8 = 0x25;

/// The digit 9.
pub const KEY_9: u8 = 0x26;

/// The digit 0.
pub const KEY_0: u8 = 0x27;

/// Enter.
pub const KEY_ENTER: u8 = 0x28;

/// Escape.
pub const KEY_ESCAPE: u8 = 0x29;

/// Backspace.
pub const KEY_BACKSPACE: u8 = 0x2A;

/// Tab.
pub const KEY_TAB: u8 = 0x2B;

/// The space bar.
pub const KEY_SPACE: u8 = 0x2C;

/// Minus and underscore.
pub const KEY_MINUS: u8 = 0x2D;

/// Equal and plus.
pub const KEY_EQUAL: u8 = 0x2E;

/// Left bracket and brace.
pub const KEY_LEFT_BRACKET: u8 = 0x2F;

/// Right bracket and brace.
pub const KEY_RIGHT_BRACKET: u8 = 0x30;

/// Backslash and bar.
pub const KEY_BACKSLASH: u8 = 0x31;

/// Semicolon and colon.
pub const KEY_SEMICOLON: u8 = 0x33;

/// Quote and double quote.
pub const KEY_QUOTE: u8 = 0x34;

/// Grave accent and tilde.
pub const KEY_GRAVE: u8 = 0x35;

/// Comma and less-than.
pub const KEY_COMMA: u8 = 0x36;

/// Full stop and greater-than.
pub const KEY_DOT: u8 = 0x37;

/// Slash and question mark.
pub const KEY_SLASH: u8 = 0x38;

/// Caps lock.
pub const KEY_CAPS_LOCK: u8 = 0x39;

/// Function key 1.
pub const KEY_F1: u8 = 0x3A;

/// Function key 2.
pub const KEY_F2: u8 = 0x3B;

/// Function key 3.
pub const KEY_F3: u8 = 0x3C;

/// Function key 4.
pub const KEY_F4: u8 = 0x3D;

/// Function key 5.
pub const KEY_F5: u8 = 0x3E;

/// Function key 6.
pub const KEY_F6: u8 = 0x3F;

/// Function key 7.
pub const KEY_F7: u8 = 0x40;

/// Function key 8.
pub const KEY_F8: u8 = 0x41;

/// Function key 9.
pub const KEY_F9: u8 = 0x42;

/// Function key 10.
pub const KEY_F10: u8 = 0x43;

/// Function key 11.
pub const KEY_F11: u8 = 0x44;

/// Function key 12.
pub const KEY_F12: u8 = 0x45;

/// Insert.
pub const KEY_INSERT: u8 = 0x49;

/// Home.
pub const KEY_HOME: u8 = 0x4A;

/// Page up.
pub const KEY_PAGE_UP: u8 = 0x4B;

/// Delete.
pub const KEY_DELETE: u8 = 0x4C;

/// End.
pub const KEY_END: u8 = 0x4D;

/// Page down.
pub const KEY_PAGE_DOWN: u8 = 0x4E;

/// Cursor right.
pub const KEY_RIGHT: u8 = 0x4F;

/// Cursor left.
pub const KEY_LEFT: u8 = 0x50;

/// Cursor down.
pub const KEY_DOWN: u8 = 0x51;

/// Cursor up.
pub const KEY_UP: u8 = 0x52;

/// Left control, the first modifier.
pub const KEY_LEFT_CTRL: u8 = 0xE0;

/// Left shift.
pub const KEY_LEFT_SHIFT: u8 = 0xE1;

/// Left alt.
pub const KEY_LEFT_ALT: u8 = 0xE2;

/// Left GUI.
pub const KEY_LEFT_GUI: u8 = 0xE3;

/// Right control.
pub const KEY_RIGHT_CTRL: u8 = 0xE4;

/// Right shift.
pub const KEY_RIGHT_SHIFT: u8 = 0xE5;

/// Right alt.
pub const KEY_RIGHT_ALT: u8 = 0xE6;

/// Right GUI, the last modifier.
pub const KEY_RIGHT_GUI: u8 = 0xE7;

} // verus!
