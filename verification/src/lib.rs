//! A koi pond for the terminal: the verified core.
//!
//! * `canvas` — the braille sub-pixel canvas, and how it renders into a
//!   terminal buffer.
//! * `buffer` — the terminal buffer of the `ratatui` crate, seen as a
//!   map from positions to cells.
//! * `color_arg` — the `--bg <hex>` command-line option.
//! * `frog` — the colour morphs of the pond frogs.
//! * `ghost_anim` — a full-screen ghost animation drawn from text frames.
//! * `screen` — the commands the program's input asks for, and its
//!   header line.
//! * `sdf` — the character ramp for shading by brightness.
//! * `text` — character-level access to strings.

pub mod buffer;
pub mod canvas;
pub mod color_arg;
pub mod frog;
pub mod ghost_anim;
pub mod screen;
pub mod sdf;
pub mod text;
