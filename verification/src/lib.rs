//! Keyboard layouts and keystroke plans for a virtual keyboard.

pub mod detect;
pub mod detect_laws;
pub mod effect;
pub mod hyprland;
pub mod json;
pub mod keyboard;
pub mod keymap;
pub mod keymap_laws;
pub mod keys;
pub mod layout;
pub mod plan;
pub mod plan_laws;
pub mod report_laws;
pub mod run;
pub mod run_laws;
pub mod sway;
pub mod table_laws;
pub mod text;
pub mod typing_laws;
pub mod x11;

pub use keyboard::Keyboard;
pub use keymap::{KeymapError, KeymapTable, XkbKeymap};
pub use keys::{KeyMapping, KeyTap};
pub use layout::KeyboardLayout;
