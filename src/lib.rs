//! A double-buffered terminal renderer, a key-combination resolver and a
//! single-line editor widget, all working on a virtual model of the screen.
//!
//! The library computes; the terminal itself is driven by the caller, which
//! writes out the [`renderer::Command`] values that the renderer produces.

pub mod buffer;
pub mod input;
pub mod keyaction;
pub mod readline;
pub mod renderer;
pub mod style;
pub mod text;

pub use input::{Event, KeyCode, KeyEvent};
pub use keyaction::{KeyCombination, KeyMap};
pub use readline::ReadLine;
pub use renderer::Renderer;
pub use style::{Color, Style};
