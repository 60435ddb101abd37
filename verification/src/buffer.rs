//! The terminal buffer of the `ratatui` crate, seen as a grid of cells.
//!
//! A buffer covers a rectangle of the terminal, its *area*, and holds one
//! cell per position of it. What this crate reads and writes of a cell is
//! its symbol and its foreground and background colours; those are named
//! here as plain values, and the methods that write them are given
//! contracts over those names.

use ratatui::buffer::Buffer;
use ratatui::style::{Color, Style};
use vstd::prelude::*;

verus! {

/// `ratatui::buffer::Buffer`, opaque to Verus: what the library knows of
/// a buffer is what [`buffer_cells`] names.
#[verifier::external_type_specification]
#[verifier::external_body]
pub struct ExBuffer(Buffer);

/// A rectangle of terminal cells: its top-left corner and its size.
#[derive(Clone, Copy, Debug, PartialEq, Eq, Structural)]
pub struct Area {
    pub x: u16,
    pub y: u16,
    pub width: u16,
    pub height: u16,
}

impl Area {
    /// The rectangle at `(x, y)` of the given size.
    pub fn new(x: u16, y: u16, width: u16, height: u16) -> (a: Area)
        ensures
            a == (Area { x, y, width, height }),
    {
        Area { x, y, width, height }
    }
}

/// The cells of a buffer by position: for each position that indexing
/// the buffer reaches (inside its area, at an index its content holds),
/// the characters of the cell's symbol, then its foreground and its
/// background colour, each `Some((r, g, b))` when it is an RGB colour and
/// `None` when it is any other colour.
pub uninterp spec fn buffer_cells(buf: Buffer) -> Map<
    (u16, u16),
    (Seq<char>, Option<(u8, u8, u8)>, Option<(u8, u8, u8)>),
>;

/// `Buffer::cell((x, y)).is_some()`: whether indexing the buffer reaches
/// `(x, y)` — the position lies in the buffer's area and its index in
/// the content — which is what the domain of [`buffer_cells`] holds.
#[verifier::external_body]
pub(crate) fn buffer_holds(buf: &Buffer, x: u16, y: u16) -> (b: bool)
    ensures
        b == buffer_cells(*buf).contains_key((x, y)),
{
    buf.cell((x, y)).is_some()
}

/// `Cell::set_char` on the cell at `(x, y)` (reached by indexing the
/// buffer, which panics at a position it does not hold): the symbol becomes `ch`, the rest
/// of the cell and every other cell stay as they were.
#[verifier::external_body]
pub(crate) fn set_cell_char(buf: &mut Buffer, x: u16, y: u16, ch: char)
    requires
        buffer_cells(*old(buf)).contains_key((x, y)),
    ensures
        buffer_cells(*final(buf)) == buffer_cells(*old(buf)).insert(
            (x, y),
            (
                seq![ch],
                buffer_cells(*old(buf))[(x, y)].1,
                buffer_cells(*old(buf))[(x, y)].2,
            ),
        ),
{
    buf[(x, y)].set_char(ch);
}

/// `Cell::set_fg` with `Color::Rgb(r, g, b)` on the cell at `(x, y)`:
/// only that cell's foreground changes.
#[verifier::external_body]
pub(crate) fn set_cell_fg(buf: &mut Buffer, x: u16, y: u16, r: u8, g: u8, b: u8)
    requires
        buffer_cells(*old(buf)).contains_key((x, y)),
    ensures
        buffer_cells(*final(buf)) == buffer_cells(*old(buf)).insert(
            (x, y),
            (
                buffer_cells(*old(buf))[(x, y)].0,
                Some((r, g, b)),
                buffer_cells(*old(buf))[(x, y)].2,
            ),
        ),
{
    buf[(x, y)].set_fg(Color::Rgb(r, g, b));
}

/// `Cell::set_bg` with `Color::Rgb(r, g, b)` on the cell at `(x, y)`:
/// only that cell's background changes.
#[verifier::external_body]
pub(crate) fn set_cell_bg(buf: &mut Buffer, x: u16, y: u16, r: u8, g: u8, b: u8)
    requires
        buffer_cells(*old(buf)).contains_key((x, y)),
    ensures
        buffer_cells(*final(buf)) == buffer_cells(*old(buf)).insert(
            (x, y),
            (
                buffer_cells(*old(buf))[(x, y)].0,
                buffer_cells(*old(buf))[(x, y)].1,
                Some((r, g, b)),
            ),
        ),
{
    buf[(x, y)].set_bg(Color::Rgb(r, g, b));
}

/// `Cell::set_style` with `Style::default()` on the cell at `(x, y)`: the
/// default style sets no colour and adds and removes no modifier, so the
/// symbol and colours of every cell stay as they were.
#[verifier::external_body]
pub(crate) fn set_cell_default_style(buf: &mut Buffer, x: u16, y: u16)
    requires
        buffer_cells(*old(buf)).contains_key((x, y)),
    ensures
        buffer_cells(*final(buf)) == buffer_cells(*old(buf)),
{
    buf[(x, y)].set_style(Style::default());
}

} // verus!
