//! Keys of the virtual keyboard, by evdev keycode.

use vstd::prelude::*;

verus! {

/// One key press, with the modifiers that are held around it.
#[derive(Clone, Copy, Debug, PartialEq, Eq, Structural)]
pub struct KeyTap {
    pub keycode: u16,
    pub shift: bool,
    pub altgr: bool,
}

impl KeyTap {
    /// The tap that presses `keycode` and no modifier.
    pub open spec fn plain(keycode: u16) -> KeyTap {
        KeyTap { keycode, shift: false, altgr: false }
    }
}

/// How to type one character: a tap, and for a dead key the tap that completes it.
#[derive(Clone, Copy, Debug, PartialEq, Eq)]
pub struct KeyMapping {
    pub main: KeyTap,
    pub follow: Option<KeyTap>,
}

/// The keys that the library names itself.
#[derive(Clone, Copy, Debug, PartialEq, Eq, Structural)]
pub enum NamedKey {
    Backspace,
    LeftCtrl,
    LeftShift,
    V,
    RightShift,
    LeftAlt,
    Space,
    RightCtrl,
    RightAlt,
    LeftMeta,
    RightMeta,
}

impl NamedKey {
    /// The keycode that Linux gives the key.
    pub open spec fn keycode(self) -> u16 {
        match self {
            NamedKey::Backspace => 14,
            NamedKey::LeftCtrl => 29,
            NamedKey::LeftShift => 42,
            NamedKey::V => 47,
            NamedKey::RightShift => 54,
            NamedKey::LeftAlt => 56,
            NamedKey::Space => 57,
            NamedKey::RightCtrl => 97,
            NamedKey::RightAlt => 100,
            NamedKey::LeftMeta => 125,
            NamedKey::RightMeta => 126,
        }
    }

    /// `evdev::Key::code` on the constant of `evdev::Key` with this name: the number that the
    /// constant is declared with.
    #[verifier::external_body]
    pub(crate) fn code(self) -> (code: u16)
        ensures
            code == self.keycode(),
    {
        let key: evdev::Key = match self {
            NamedKey::Backspace => evdev::Key::KEY_BACKSPACE,
            NamedKey::LeftCtrl => evdev::Key::KEY_LEFTCTRL,
            NamedKey::LeftShift => evdev::Key::KEY_LEFTSHIFT,
            NamedKey::V => evdev::Key::KEY_V,
            NamedKey::RightShift => evdev::Key::KEY_RIGHTSHIFT,
            NamedKey::LeftAlt => evdev::Key::KEY_LEFTALT,
            NamedKey::Space => evdev::Key::KEY_SPACE,
            NamedKey::RightCtrl => evdev::Key::KEY_RIGHTCTRL,
            NamedKey::RightAlt => evdev::Key::KEY_RIGHTALT,
            NamedKey::LeftMeta => evdev::Key::KEY_LEFTMETA,
            NamedKey::RightMeta => evdev::Key::KEY_RIGHTMETA,
        };
        key.code()
    }
}

} // verus!
